//! Everything read of the events of a broadcast: the divisions, the groups and
//! the players of each round, and which round is on.
use vstd::prelude::*;

use crate::division::Division;
use crate::event::Group;
use crate::handler::{round_is_ready, assign_group_indexes, assigned_group, on_course, order_divisions, round_players, round_ready, read_in_round, listed_divisions, QueryPlayer, division_view};
use crate::sort::stable_sorted;
use crate::hole::Holes;
use crate::player::{BroadcastType, Player};
use crate::results::PlayerResults;
use crate::queue::derefs;
use crate::standings::{can_count, counted, first_player_with_id, first_state, previous_total, Leaderboard, LeaderboardStart, LeaderboardState};
use crate::player::{copies, copy_of, relative_sum, round_fits};

verus! {

/// The rounds of several events side by side: round `i` holds round `i` of the
/// first list followed by round `i` of the second.
pub open spec fn merged<T>(acc: Seq<Seq<T>>, next: Seq<Seq<T>>) -> Seq<Seq<T>> {
    Seq::new(
        if acc.len() >= next.len() { acc.len() } else { next.len() },
        |i: int| (if i < acc.len() { acc[i] } else { Seq::empty() }) + (if i < next.len() { next[i] } else { Seq::empty() }),
    )
}

/// The views of a list of lists.
pub open spec fn views<T>(v: Seq<Vec<T>>) -> Seq<Seq<T>> {
    v.map_values(|x: Vec<T>| x@)
}

/// Adds the rounds of one more event to the rounds read so far (see `merged`).
pub fn merge_rounds<T>(out: &mut Vec<Vec<T>>, rounds: Vec<Vec<T>>)
    ensures
        views(final(out)@) == merged(views(old(out)@), views(rounds@)),
{
    let mut rounds = rounds;
    let ghost all = rounds@;
    let n = rounds.len();
    let mut i: usize = 0;
    while i < n
        invariant
            i <= n,
            n == all.len(),
            rounds@ =~= all.subrange(i as int, n as int),
            views(out@) =~= merged(views(old(out)@), views(all.take(i as int))),
        decreases n - i,
    {
        let mut next = rounds.remove(0);
        assert(next == all[i as int]);
        let ghost before = out@;
        let ghost nv = next@;
        if i < out.len() {
            let mut cur = out.remove(i);
            cur.append(&mut next);
            out.insert(i, cur);
            proof {
                assert(out@ =~= before.update(i as int, cur));
            }
        } else {
            out.push(next);
            proof {
                assert(out@ =~= before.push(all[i as int]));
            }
        }
        proof {
            let a = views(old(out)@);
            let b = views(all.take(i + 1));
            let b0 = views(all.take(i as int));
            let m0 = merged(a, b0);
            assert(b0 =~= b.take(i as int));
            assert(views(before) =~= m0);
            assert(b[i as int] == nv);
            assert(before.len() == m0.len());
            assert(out@.len() == merged(a, b).len());
            assert(out@.len() == before.len() ==> out@ == before.update(i as int, out@[i as int]));
            assert(out@.len() != before.len() ==> out@ == before.push(out@[i as int]) && before.len() == i);
            assert forall|j: int| 0 <= j < merged(a, b).len() implies #[trigger] views(out@)[j] == merged(a, b)[j] by {
                if j == i {
                    let e: Seq<T> = Seq::empty();
                    if (i as int) < a.len() {
                        assert(m0[j] =~= a[j] + e);
                        assert(a[j] + e =~= a[j]);
                    } else {
                        assert(e + nv =~= nv);
                    }
                } else {
                    assert(out@[j] == before[j]);
                    assert(views(out@)[j] == views(before)[j]);
                    if j < i {
                        assert(b[j] == b0[j]);
                    }
                }
            }
            assert(views(out@) =~= merged(a, b));
        }
        i = i + 1;
    }
    proof {
        assert(all.take(n as int) =~= all);
    }
}


/// What was read of one round of one event: its players, their results and
/// the holes of the layout each group plays, by group id.
pub struct RoundData {
    pub players: Vec<QueryPlayer>,
    pub results: PlayerResults,
    pub holes: Vec<(String, Holes)>,
}

/// The layouts by group id, as plain values.
pub open spec fn holes_view(h: Seq<(String, Holes)>) -> Seq<(Seq<char>, Holes)> {
    h.map_values(|e: (String, Holes)| (e.0@, e.1))
}

/// The ids of the players of a round who are on a group of the round, in order.
pub open spec fn read_ids(d: RoundData, groups: Seq<Group>) -> Seq<Seq<char>> {
    on_course(d.players@, groups).map_values(|q: QueryPlayer| q.id@)
}

/// For each round of an event, the ids of its players on a group.
pub open spec fn event_ids(ev: Seq<RoundData>, groups: Seq<Vec<Group>>) -> Seq<Seq<Seq<char>>> {
    Seq::new(ev.len(), |r: int| read_ids(ev[r], groups[r]@))
}

/// For each round number, the ids of the players on a group in that round of
/// each event, event after event.
pub open spec fn all_ids(events: Seq<Seq<RoundData>>, groups: Seq<Vec<Group>>) -> Seq<Seq<Seq<char>>>
    decreases events.len(),
{
    if events.len() == 0 {
        seq![]
    } else {
        merged(all_ids(events.drop_last(), groups), event_ids(events.last(), groups))
    }
}

/// Whether every round of every event has its groups, and each player of a
/// round on a group can be read (see `round_ready`) against divisions with the
/// given ids.
pub open spec fn events_ready(events: Seq<Seq<RoundData>>, groups: Seq<Vec<Group>>, division_ids: Seq<Seq<char>>) -> bool {
    forall|e: int| 0 <= e < events.len() ==> {
        &&& (#[trigger] events[e]).len() <= groups.len()
        &&& forall|r: int| 0 <= r < events[e].len() ==> round_ready(
            (#[trigger] events[e][r]).players@,
            groups[r]@,
            events[e][r].results.view_entries(),
            holes_view(events[e][r].holes@),
            division_ids,
        )
    }
}

/// The players of each round of an event who are on a group of the round,
/// each with the index `e` of its event.
pub open spec fn event_sources(ev: Seq<RoundData>, groups: Seq<Vec<Group>>, e: int) -> Seq<Seq<(QueryPlayer, int)>> {
    Seq::new(ev.len(), |r: int| on_course(ev[r].players@, groups[r]@).map_values(|q: QueryPlayer| (q, e)))
}

/// For each round number, the players on a group in that round of each event,
/// event after event (the order of `all_ids`), each with the index of its
/// event.
pub open spec fn all_sources(events: Seq<Seq<RoundData>>, groups: Seq<Vec<Group>>) -> Seq<Seq<(QueryPlayer, int)>>
    decreases events.len(),
{
    if events.len() == 0 {
        seq![]
    } else {
        merged(all_sources(events.drop_last(), groups), event_sources(events.last(), groups, events.len() - 1))
    }
}

/// Whether `p` is the player of `src` (a player and the index of its event)
/// read in round `round` (see `read_in_round`), with the results and layouts
/// read of that round of its event and the divisions given.
pub open spec fn read_from(
    src: (QueryPlayer, int),
    round: int,
    events: Seq<Seq<RoundData>>,
    groups: Seq<Vec<Group>>,
    divisions: Seq<Division>,
    broadcast_type: BroadcastType,
    windows: bool,
    p: Player,
) -> bool {
    let d = events[src.1][round];
    read_in_round(
        src.0,
        groups[round]@,
        d.results.view_entries(),
        holes_view(d.holes@),
        divisions,
        round as usize,
        src.1 as usize,
        broadcast_type,
        windows,
        p,
    )
}

/// Whether each player of each round is read from its source, round by round.
pub open spec fn all_read_from(
    rs: Seq<Seq<Player>>,
    srcs: Seq<Seq<(QueryPlayer, int)>>,
    events: Seq<Seq<RoundData>>,
    groups: Seq<Vec<Group>>,
    divisions: Seq<Division>,
    broadcast_type: BroadcastType,
    windows: bool,
) -> bool {
    &&& rs.len() == srcs.len()
    &&& forall|i: int| 0 <= i < rs.len() ==> (#[trigger] rs[i]).len() == srcs[i].len()
    &&& forall|i: int, k: int| 0 <= i < rs.len() && 0 <= k < rs[i].len() ==> read_from(
        srcs[i][k],
        i,
        events,
        groups,
        divisions,
        broadcast_type,
        windows,
        #[trigger] rs[i][k],
    )
}

proof fn lemma_merged_read(
    a: Seq<Seq<Player>>,
    sa: Seq<Seq<(QueryPlayer, int)>>,
    b: Seq<Seq<Player>>,
    sb: Seq<Seq<(QueryPlayer, int)>>,
    events: Seq<Seq<RoundData>>,
    groups: Seq<Vec<Group>>,
    divisions: Seq<Division>,
    broadcast_type: BroadcastType,
    windows: bool,
)
    requires
        all_read_from(a, sa, events, groups, divisions, broadcast_type, windows),
        all_read_from(b, sb, events, groups, divisions, broadcast_type, windows),
    ensures
        all_read_from(merged(a, b), merged(sa, sb), events, groups, divisions, broadcast_type, windows),
{
    let m = merged(a, b);
    let ms = merged(sa, sb);
    assert forall|i: int| 0 <= i < m.len() implies (#[trigger] m[i]).len() == ms[i].len() by {
        if i < a.len() {
            assert(a[i].len() == sa[i].len());
        }
        if i < b.len() {
            assert(b[i].len() == sb[i].len());
        }
    }
    assert forall|i: int, k: int| 0 <= i < m.len() && 0 <= k < m[i].len() implies read_from(
        ms[i][k],
        i,
        events,
        groups,
        divisions,
        broadcast_type,
        windows,
        #[trigger] m[i][k],
    ) by {
        let x: Seq<Player> = if i < a.len() { a[i] } else { Seq::empty() };
        let sx: Seq<(QueryPlayer, int)> = if i < sa.len() { sa[i] } else { Seq::empty() };
        if i < a.len() {
            assert(a[i].len() == sa[i].len());
        }
        if k < x.len() {
            assert(m[i][k] == x[k]);
            assert(ms[i][k] == sx[k]);
            assert(x[k] == a[i][k]);
        } else {
            assert(m[i][k] == b[i][k - x.len()]);
            assert(ms[i][k] == sb[i][k - x.len()]);
        }
    }
}

/// The ids of a list of players.
pub open spec fn ids_of(s: Seq<Player>) -> Seq<Seq<char>> {
    s.map_values(|p: Player| p.player_id@)
}

/// The ids of the players of each round.
pub open spec fn round_ids_of(rs: Seq<Seq<Player>>) -> Seq<Seq<Seq<char>>> {
    rs.map_values(|s: Seq<Player>| ids_of(s))
}

proof fn lemma_merged_ids(a: Seq<Seq<Player>>, b: Seq<Seq<Player>>)
    ensures
        round_ids_of(merged(a, b)) == merged(round_ids_of(a), round_ids_of(b)),
{
    let m = merged(a, b);
    assert forall|j: int| 0 <= j < m.len() implies #[trigger] round_ids_of(m)[j] == merged(round_ids_of(a), round_ids_of(b))[j] by {
        let x: Seq<Player> = if j < a.len() { a[j] } else { Seq::empty() };
        let y: Seq<Player> = if j < b.len() { b[j] } else { Seq::empty() };
        assert(ids_of(x + y) =~= ids_of(x) + ids_of(y));
        let e: Seq<Seq<char>> = Seq::empty();
        if j >= a.len() {
            assert(ids_of(x) =~= e);
        }
        if j >= b.len() {
            assert(ids_of(y) =~= e);
        }
    }
    assert(round_ids_of(m) =~= merged(round_ids_of(a), round_ids_of(b)));
}

/// The rounds before round `r` (all of them where there are no more).
pub open spec fn before_round(rs: Seq<Seq<Player>>, r: int) -> Seq<Seq<Player>> {
    if r < rs.len() { rs.take(r) } else { rs }
}

/// The players of the rounds, round after round.
pub open spec fn flatten_rounds(rs: Seq<Seq<Player>>) -> Seq<Player>
    decreases rs.len(),
{
    if rs.len() == 0 {
        seq![]
    } else {
        flatten_rounds(rs.drop_last()) + rs.last()
    }
}

/// The rounds of players read, and which round is on.
pub struct PlayerContainer {
    rounds_with_players: Vec<Vec<Player>>,
    round: usize,
}

impl PlayerContainer {
    /// The players of each round.
    pub closed spec fn rounds(&self) -> Seq<Seq<Player>> {
        views(self.rounds_with_players@)
    }

    /// The round that is on.
    pub closed spec fn round(&self) -> usize {
        self.round
    }

    /// The players of the round that is on.
    pub fn players(&self) -> (r: &Vec<Player>)
        requires
            self.round() < self.rounds().len(),
        ensures
            r@ == self.rounds()[self.round() as int],
    {
        &self.rounds_with_players[self.round]
    }

    /// The players of the rounds before the one that is on, round after round.
    pub fn previous_rounds_players(&self) -> (r: Vec<&Player>)
        ensures
            derefs(r@) == flatten_rounds(before_round(self.rounds(), self.round() as int)),
    {
        let n = if self.round < self.rounds_with_players.len() { self.round } else { self.rounds_with_players.len() };
        let ghost rs = before_round(self.rounds(), self.round() as int);
        proof {
            assert(rs =~= self.rounds().take(n as int));
        }
        let mut out: Vec<&Player> = Vec::new();
        let mut i: usize = 0;
        while i < n
            invariant
                i <= n,
                n <= self.rounds_with_players@.len(),
                rs =~= self.rounds().take(n as int),
                derefs(out@) =~= flatten_rounds(rs.take(i as int)),
            decreases n - i,
        {
            let round = &self.rounds_with_players[i];
            let ghost before = derefs(out@);
            let mut k: usize = 0;
            while k < round.len()
                invariant
                    k <= round@.len(),
                    derefs(out@) =~= before + round@.take(k as int),
                decreases round@.len() - k,
            {
                let ghost prev = out@;
                out.push(&round[k]);
                proof {
                    assert(out@ =~= prev.push(&round@[k as int]));
                    assert(derefs(out@) =~= derefs(prev).push(round@[k as int]));
                    assert(round@.take(k + 1) =~= round@.take(k as int).push(round@[k as int]));
                }
                k = k + 1;
            }
            proof {
                assert(round@.take(round@.len() as int) =~= round@);
                assert(rs.take(i + 1).drop_last() =~= rs.take(i as int));
                assert(rs[i as int] == round@);
            }
            i = i + 1;
        }
        proof {
            assert(rs.take(n as int) =~= rs);
        }
        out
    }

    /// The players of the round that is on, to change.
    pub fn players_mut(&mut self) -> (r: &mut Vec<Player>)
        requires
            old(self).round() < old(self).rounds().len(),
        ensures
            r@ == old(self).rounds()[old(self).round() as int],
            final(self).rounds() == old(self).rounds().update(old(self).round() as int, final(r)@),
            final(self).round() == old(self).round(),
    {
        proof {
            assert(views(self.rounds_with_players@)[self.round as int] == self.rounds_with_players@[self.round as int]@);
        }
        &mut self.rounds_with_players[self.round]
    }

    /// Keeps the rounds of players with the round that is on.
    pub fn new(rounds_with_players: Vec<Vec<Player>>, round: usize) -> (r: Self)
        ensures
            r.rounds() == views(rounds_with_players@),
            r.round() == round,
    {
        Self { rounds_with_players, round }
    }
}

/// The divisions, groups and players of the events of a broadcast.
pub struct RustHandler {
    pub chosen_division: String,
    pub round_ids: Vec<Vec<String>>,
    player_container: PlayerContainer,
    divisions: Vec<Division>,
    round_ind: usize,
    pub groups: Vec<Vec<Group>>,
}

/// A player's group index: its place among the named players of the first
/// group of the round that names it, else none.
pub open spec fn group_place(p: Player, groups: Seq<Group>) -> usize {
    match crate::handler::group_index_of(groups, p.player_id@, 0) {
        Some(k) => k as usize,
        None => 0,
    }
}

proof fn lemma_listed_nonempty(divs: Seq<Division>)
    requires
        divs.len() > 0,
    ensures
        listed_divisions(divs).len() > 0,
{
    crate::sort::lemma_stable_sorted(crate::handler::ranked(divs));
    crate::handler::ranked(divs).to_multiset_ensures();
    stable_sorted_len(crate::handler::ranked(divs));
    lemma_dedup_nonempty(crate::sort::stable_sorted(crate::handler::ranked(divs)).map_values(|r: crate::handler::RankedIndex| (
        divs[r.index as int].id@,
        crate::handler::shown_division_name(divs[r.index as int].name@),
        divs[r.index as int].short_name@,
    )));
}

proof fn stable_sorted_len<T: crate::sort::SortKey>(s: Seq<T>)
    ensures
        crate::sort::stable_sorted(s).len() == s.len(),
{
    crate::sort::lemma_stable_sorted(s);
    s.to_multiset_ensures();
    crate::sort::stable_sorted(s).to_multiset_ensures();
}

proof fn lemma_dedup_nonempty(s: Seq<(Seq<char>, Seq<char>, Seq<char>)>)
    requires
        s.len() > 0,
    ensures
        crate::handler::dedup_names(s).len() > 0,
    decreases s.len(),
{
    if s.len() > 1 {
        lemma_dedup_nonempty(s.drop_last());
    }
}

proof fn lemma_all_ids_len(events: Seq<Seq<RoundData>>, groups: Seq<Vec<Group>>)
    requires
        forall|e: int| 0 <= e < events.len() ==> (#[trigger] events[e]).len() <= groups.len(),
    ensures
        all_ids(events, groups).len() <= groups.len(),
    decreases events.len(),
{
    if events.len() > 0 {
        assert(events.last() == events[events.len() - 1]);
        lemma_all_ids_len(events.drop_last(), groups);
    }
}

impl RustHandler {
    /// The players of each round.
    pub closed spec fn rounds(&self) -> Seq<Seq<Player>> {
        self.player_container.rounds()
    }

    /// The round that is on.
    pub closed spec fn round(&self) -> usize {
        self.round_ind
    }

    /// The divisions, as listed.
    pub closed spec fn division_list(&self) -> Seq<Division> {
        self.divisions@
    }

    /// The round the players are kept for.
    pub closed spec fn container_round(&self) -> usize {
        self.player_container.round()
    }

    /// The id of the chosen division.
    pub closed spec fn chosen(&self) -> String {
        self.chosen_division
    }

    /// The ids of the rounds of each event.
    pub closed spec fn round_id_lists(&self) -> Seq<Vec<String>> {
        self.round_ids@
    }

    /// The groups of each round.
    pub closed spec fn group_lists(&self) -> Seq<Vec<Group>> {
        self.groups@
    }

    /// Builds the handler from what was read of the events: the divisions are
    /// listed (see `listed_divisions`) and the first is chosen; round `r` holds
    /// the players of round `r` of each event, event after event, who are on a
    /// group of the round, each with its place in its group.
    pub fn new(
        events: Vec<Vec<RoundData>>,
        divisions: Vec<Division>,
        groups: Vec<Vec<Group>>,
        round_ids: Vec<Vec<String>>,
        round: usize,
        broadcast_type: BroadcastType,
        windows: bool,
    ) -> (r: Self)
        requires
            divisions@.len() > 0,
            events_ready(events@.map_values(|v: Vec<RoundData>| v@), groups@, listed_divisions(divisions@).map_values(|t: (Seq<char>, Seq<char>, Seq<char>)| t.0)),
        ensures
            r.division_list().map_values(|d: Division| division_view(d)) == listed_divisions(divisions@),
            r.chosen()@ == listed_divisions(divisions@)[0].0,
            r.round() == round,
            r.container_round() == round,
            r.round_id_lists() == round_ids@,
            r.group_lists() == groups@,
            round_ids_of(r.rounds()) == all_ids(events@.map_values(|v: Vec<RoundData>| v@), groups@),
            forall|i: int, k: int| 0 <= i < r.rounds().len() && 0 <= k < r.rounds()[i].len() ==> {
                &&& (#[trigger] r.rounds()[i][k]).round_ind == i
                &&& r.rounds()[i][k].group_index == group_place(r.rounds()[i][k], groups@[i]@)
            },
            all_read_from(
                r.rounds(),
                all_sources(events@.map_values(|v: Vec<RoundData>| v@), groups@),
                events@.map_values(|v: Vec<RoundData>| v@),
                groups@,
                r.division_list(),
                broadcast_type,
                windows,
            ),
    {
        let divs = order_divisions(divisions);
        let ghost listed = listed_divisions(divisions@);
        let ghost ids = listed.map_values(|t: (Seq<char>, Seq<char>, Seq<char>)| t.0);
        proof {
            lemma_listed_nonempty(divisions@);
            assert(divs@.map_values(|d: Division| d.id@) =~= ids) by {
                assert forall|j: int| 0 <= j < divs@.len() implies divs@.map_values(|d: Division| d.id@)[j] == ids[j] by {
                    assert(divs@.map_values(|d: Division| division_view(d))[j] == listed[j]);
                }
            }
            assert(divs@.map_values(|d: Division| division_view(d))[0] == listed[0]);
        }
        let ghost ev = events@.map_values(|v: Vec<RoundData>| v@);
        let mut events = events;
        let n = events.len();
        let mut acc: Vec<Vec<Player>> = Vec::new();
        let mut e: usize = 0;
        while e < n
            invariant
                e <= n,
                n == ev.len(),
                events@.map_values(|v: Vec<RoundData>| v@) =~= ev.subrange(e as int, n as int),
                events@.len() == n - e,
                events_ready(ev, groups@, ids),
                divs@.map_values(|d: Division| d.id@) == ids,
                round_ids_of(views(acc@)) == all_ids(ev.take(e as int), groups@),
                forall|i: int, k: int| 0 <= i < acc@.len() && 0 <= k < acc@[i]@.len() ==>
                    (#[trigger] acc@[i]@[k]).round_ind == i && acc@[i]@[k].group_index == 0,
                all_read_from(views(acc@), all_sources(ev.take(e as int), groups@), ev, groups@, divs@, broadcast_type, windows),
            decreases n - e,
        {
            let ghost left = events@;
            assert(left.map_values(|v: Vec<RoundData>| v@)[0] == ev[e as int]);
            let mut event = events.remove(0);
            let ghost evr = event@;
            assert(evr == ev[e as int]);
            proof {
                assert(events@.map_values(|v: Vec<RoundData>| v@) =~= left.map_values(|v: Vec<RoundData>| v@).subrange(1, left.len() as int));
            }
            let m = event.len();
            let mut rounds: Vec<Vec<Player>> = Vec::new();
            let mut r: usize = 0;
            while r < m
                invariant
                    r <= m,
                    m == evr.len(),
                    event@ =~= evr.subrange(r as int, m as int),
                    evr.len() <= groups@.len(),
                    forall|j: int| 0 <= j < m ==> round_ready(
                        (#[trigger] evr[j]).players@,
                        groups@[j]@,
                        evr[j].results.view_entries(),
                        holes_view(evr[j].holes@),
                        ids,
                    ),
                    divs@.map_values(|d: Division| d.id@) == ids,
                    round_ids_of(views(rounds@)) =~= event_ids(evr, groups@).take(r as int),
                    rounds@.len() == r,
                    forall|i: int, k: int| 0 <= i < rounds@.len() && 0 <= k < rounds@[i]@.len() ==>
                        (#[trigger] rounds@[i]@[k]).round_ind == i && rounds@[i]@[k].group_index == 0,
                    e < ev.len(),
                    ev[e as int] == evr,
                    all_read_from(views(rounds@), event_sources(evr, groups@, e as int).take(r as int), ev, groups@, divs@, broadcast_type, windows),
                decreases m - r,
            {
                let d = event.remove(0);
                assert(d == evr[r as int]);
                let players = round_players(d.players, &groups[r], &d.results, &d.holes, &divs, r, e, broadcast_type, windows);
                let ghost before = views(rounds@);
                rounds.push(players);
                proof {
                    assert(views(rounds@) =~= before.push(players@));
                    let src = event_sources(evr, groups@, e as int);
                    assert(src.take(r + 1) =~= src.take(r as int).push(src[r as int]));
                    assert(src[r as int] == on_course(d.players@, groups@[r as int]@).map_values(|q: QueryPlayer| (q, e as int)));
                    assert(all_read_from(views(rounds@), src.take(r + 1), ev, groups@, divs@, broadcast_type, windows)) by {
                        let vs = views(rounds@);
                        let ss = src.take(r + 1);
                        assert forall|i: int, k: int| 0 <= i < vs.len() && 0 <= k < vs[i].len() implies read_from(
                            ss[i][k],
                            i,
                            ev,
                            groups@,
                            divs@,
                            broadcast_type,
                            windows,
                            #[trigger] vs[i][k],
                        ) by {
                            if i < r {
                                assert(vs[i] == before[i]);
                                assert(ss[i] == src.take(r as int)[i]);
                            } else {
                                assert(vs[i] == players@);
                                assert(ss[i][k] == (on_course(d.players@, groups@[r as int]@)[k], e as int));
                                assert(ev[e as int][r as int] == d);
                            }
                        }
                        assert forall|i: int| 0 <= i < vs.len() implies (#[trigger] vs[i]).len() == ss[i].len() by {
                            if i < r {
                                assert(vs[i] == before[i]);
                                assert(ss[i] == src.take(r as int)[i]);
                            }
                        }
                    }
                    assert(ids_of(players@) == read_ids(d, groups@[r as int]@));
                    assert(round_ids_of(views(rounds@)) =~= round_ids_of(before).push(ids_of(players@)));
                    assert(event_ids(evr, groups@).take(r + 1) =~= event_ids(evr, groups@).take(r as int).push(read_ids(evr[r as int], groups@[r as int]@)));
                }
                r = r + 1;
            }
            proof {
                assert(event_ids(evr, groups@).take(m as int) =~= event_ids(evr, groups@));
                lemma_merged_ids(views(acc@), views(rounds@));
                assert(ev.take(e + 1).drop_last() =~= ev.take(e as int));
                assert(ev.take(e + 1).last() == evr);
            }
            let ghost before = acc@;
            proof {
                let src = event_sources(evr, groups@, e as int);
                assert(src.take(m as int) =~= src);
                lemma_merged_read(views(acc@), all_sources(ev.take(e as int), groups@), views(rounds@), src, ev, groups@, divs@, broadcast_type, windows);
                assert(ev.take(e + 1).len() - 1 == e);
                assert(all_sources(ev.take(e + 1), groups@) == merged(all_sources(ev.take(e as int), groups@), src));
            }
            merge_rounds(&mut acc, rounds);
            proof {
                assert forall|i: int, k: int| 0 <= i < acc@.len() && 0 <= k < acc@[i]@.len() implies
                    (#[trigger] acc@[i]@[k]).round_ind == i && acc@[i]@[k].group_index == 0 by {
                    assert(views(acc@)[i] == acc@[i]@);
                    let x: Seq<Player> = if i < before.len() { before[i]@ } else { Seq::empty() };
                    if k < x.len() {
                        assert(acc@[i]@[k] == x[k]);
                    } else {
                        assert(acc@[i]@[k] == views(rounds@)[i][k - x.len()]);
                    }
                }
            }
            e = e + 1;
        }
        proof {
            assert(ev.take(n as int) =~= ev);
        }
        proof {
            lemma_all_ids_len(ev, groups@);
        }
        let ghost merged_acc = acc@;
        let len = acc.len();
        let mut i: usize = 0;
        while i < len
            invariant
                i <= len,
                len == acc@.len(),
                merged_acc.len() == len,
                round_ids_of(views(merged_acc)) == all_ids(ev, groups@),
                forall|j: int| i <= j < len ==> #[trigger] acc@[j] == merged_acc[j],
                forall|j: int| 0 <= j < i ==> #[trigger] acc@[j]@.len() == merged_acc[j]@.len(),
                forall|j: int, k: int| 0 <= j < i && 0 <= k < acc@[j]@.len() ==>
                    #[trigger] acc@[j]@[k] == assigned_group(merged_acc[j]@[k], groups@[j]@),
                forall|j: int, k: int| 0 <= j < len && 0 <= k < merged_acc[j]@.len() ==>
                    (#[trigger] merged_acc[j]@[k]).round_ind == j && merged_acc[j]@[k].group_index == 0,
                len <= groups@.len(),
                all_read_from(views(merged_acc), all_sources(ev, groups@), ev, groups@, divs@, broadcast_type, windows),
            decreases len - i,
        {
            let ghost before = acc@;
            assign_group_indexes(&mut acc[i], &groups[i]);
            proof {
                assert forall|j: int| 0 <= j <= i && j < len implies #[trigger] acc@[j]@.len() == merged_acc[j]@.len() by {
                    if j < i {
                        assert(acc@[j] == before[j]);
                    }
                }
                assert forall|j: int| i < j < len implies #[trigger] acc@[j] == merged_acc[j] by {
                    assert(acc@[j] == before[j]);
                }
            }
            i = i + 1;
        }
        proof {
            assert forall|j: int| 0 <= j < len implies #[trigger] round_ids_of(views(acc@))[j] == round_ids_of(views(merged_acc))[j] by {
                assert(ids_of(acc@[j]@) =~= ids_of(merged_acc[j]@));
            }
            assert(round_ids_of(views(acc@)) =~= round_ids_of(views(merged_acc)));
            let va = views(acc@);
            let vm = views(merged_acc);
            let srcs = all_sources(ev, groups@);
            assert forall|j: int| 0 <= j < va.len() implies (#[trigger] va[j]).len() == srcs[j].len() by {
                assert(vm[j].len() == srcs[j].len());
            }
            assert forall|j: int, k: int| 0 <= j < va.len() && 0 <= k < va[j].len() implies read_from(
                srcs[j][k],
                j,
                ev,
                groups@,
                divs@,
                broadcast_type,
                windows,
                #[trigger] va[j][k],
            ) by {
                assert(va[j][k] == assigned_group(vm[j][k], groups@[j]@));
                assert(read_from(srcs[j][k], j, ev, groups@, divs@, broadcast_type, windows, vm[j][k]));
            }
        }
        let chosen = divs[0].id.clone();
        RustHandler {
            chosen_division: chosen,
            round_ids,
            player_container: PlayerContainer::new(acc, round),
            divisions: divs,
            round_ind: round,
            groups,
        }
    }
}
impl RustHandler {
    /// The groups of the round that is on.
    pub fn groups(&self) -> (r: &Vec<Group>)
        requires
            self.round() < self.group_lists().len(),
        ensures
            r@ == self.group_lists()[self.round() as int]@,
    {
        &self.groups[self.round_ind]
    }

    /// A copy of the divisions.
    pub fn get_divisions(&self) -> (r: Vec<Division>)
        ensures
            r@.map_values(|d: Division| division_view(d)) == self.division_list().map_values(|d: Division| division_view(d)),
    {
        crate::handler::duplicate_divisions(&self.divisions)
    }

    /// The id of the round that is on, for each event.
    pub fn round_ids(&self) -> (r: Vec<String>)
        requires
            forall|e: int| 0 <= e < self.round_id_lists().len() ==> self.round() < (#[trigger] self.round_id_lists()[e])@.len(),
        ensures
            r@.map_values(|s: String| s@) == self.round_id_lists().map_values(|v: Vec<String>| v@[self.round() as int]@),
    {
        let mut out: Vec<String> = Vec::new();
        let mut e: usize = 0;
        while e < self.round_ids.len()
            invariant
                e <= self.round_ids@.len(),
                forall|j: int| 0 <= j < self.round_id_lists().len() ==> self.round() < (#[trigger] self.round_id_lists()[j])@.len(),
                out@.map_values(|s: String| s@) =~= self.round_ids@.take(e as int).map_values(|v: Vec<String>| v@[self.round_ind as int]@),
            decreases self.round_ids@.len() - e,
        {
            let ghost before = out@;
            assert(self.round() < self.round_id_lists()[e as int]@.len());
            assert(self.round_id_lists()[e as int] == self.round_ids@[e as int]);
            out.push(self.round_ids[e][self.round_ind].clone());
            proof {
                assert(out@ =~= before.push(self.round_ids@[e as int]@[self.round_ind as int]));
                assert(out@.map_values(|s: String| s@) =~= before.map_values(|s: String| s@).push(self.round_ids@[e as int]@[self.round_ind as int]@));
                assert(self.round_ids@.take(e + 1) =~= self.round_ids@.take(e as int).push(self.round_ids@[e as int]));
                assert(self.round_ids@.take(e + 1).map_values(|v: Vec<String>| v@[self.round_ind as int]@) =~= self.round_ids@.take(e as int).map_values(|v: Vec<String>| v@[self.round_ind as int]@).push(self.round_ids@[e as int]@[self.round_ind as int]@));
            }
            e = e + 1;
        }
        proof {
            assert(self.round_ids@.take(self.round_ids@.len() as int) =~= self.round_ids@);
        }
        out
    }

    /// The groups of each round.
    pub fn group_table(&self) -> (r: &Vec<Vec<Group>>)
        ensures
            r@ == self.group_lists(),
    {
        &self.groups
    }

    /// The ids of the rounds of each event.
    pub fn round_id_table(&self) -> (r: &Vec<Vec<String>>)
        ensures
            r@ == self.round_id_lists(),
    {
        &self.round_ids
    }

    /// The number of rounds read.
    pub fn amount_of_rounds(&self) -> (r: usize)
        ensures
            r == self.rounds().len(),
    {
        self.player_container.rounds_with_players.len()
    }

    /// Chooses the division at the given index of the list.
    pub fn set_chosen_by_ind(&mut self, ind: usize)
        requires
            ind < old(self).division_list().len(),
        ensures
            final(self).chosen()@ == old(self).division_list()[ind as int].id@,
            final(self).rounds() == old(self).rounds(),
            final(self).round() == old(self).round(),
            final(self).container_round() == old(self).container_round(),
            final(self).division_list() == old(self).division_list(),
            final(self).round_id_lists() == old(self).round_id_lists(),
            final(self).group_lists() == old(self).group_lists(),
    {
        self.chosen_division = self.divisions[ind].id.clone();
    }

    /// The first player of the round that is on with the given id, to change.
    pub fn find_player_mut(&mut self, player_id: &str) -> (r: Option<&mut Player>)
        requires
            old(self).container_round() < old(self).rounds().len(),
        ensures
            final(self).round() == old(self).round(),
            final(self).container_round() == old(self).container_round(),
            final(self).chosen() == old(self).chosen(),
            final(self).division_list() == old(self).division_list(),
            final(self).round_id_lists() == old(self).round_id_lists(),
            final(self).group_lists() == old(self).group_lists(),
            match first_player_with_id(old(self).rounds()[old(self).container_round() as int], player_id@, 0) {
                Some(k) => r matches Some(x) && *x == old(self).rounds()[old(self).container_round() as int][k],
                None => r is None,
            },
            match first_player_with_id(old(self).rounds()[old(self).container_round() as int], player_id@, 0) {
                Some(k) => r matches Some(x) && final(self).rounds() == old(self).rounds().update(
                        old(self).container_round() as int,
                        old(self).rounds()[old(self).container_round() as int].update(k, *final(x)),
                    ),
                None => final(self).rounds() == old(self).rounds(),
            },
    {
        let ghost cur = self.rounds()[self.container_round() as int];
        let found: Option<usize> = {
            let players = self.player_container.players();
            assert(players@ == cur);
            proof {
                crate::queue::lemma_first_player(players@, player_id@, 0);
            }
            let mut found: Option<usize> = None;
            let mut i: usize = 0;
            while i < players.len()
                invariant_except_break
                    i <= players@.len(),
                    found is None,
                    first_player_with_id(players@, player_id@, 0) == first_player_with_id(players@, player_id@, i as int),
                ensures
                    match first_player_with_id(players@, player_id@, 0) {
                        Some(k) => found == Some(k as usize) && 0 <= k < players@.len() && k <= usize::MAX,
                        None => found is None,
                    },
                decreases players@.len() - i,
            {
                if crate::text::str_eq(players[i].player_id.as_str(), player_id) {
                    proof {
                        assert(first_player_with_id(players@, player_id@, i as int) == Some(i as int));
                    }
                    found = Some(i);
                    break;
                }
                i = i + 1;
            }
            found
        };
        assert(match first_player_with_id(cur, player_id@, 0) {
            Some(k) => found == Some(k as usize) && 0 <= k < cur.len() && k <= usize::MAX,
            None => found is None,
        });
        if let Some(k) = found {
            let players = self.player_container.players_mut();
            assert(players@ == cur);
            return Some(&mut players[k]);
        }
        None
    }

    /// The list of the players of the round that is on.
    pub fn round_player_list(&self) -> (r: &Vec<Player>)
        requires
            self.container_round() < self.rounds().len(),
        ensures
            r@ == self.rounds()[self.container_round() as int],
    {
        self.player_container.players()
    }

    /// The players of the round that is on.
    pub fn get_players(&self) -> (r: Vec<&Player>)
        requires
            self.container_round() < self.rounds().len(),
        ensures
            derefs(r@) == self.rounds()[self.container_round() as int],
    {
        let players = self.player_container.players();
        let mut out: Vec<&Player> = Vec::new();
        let mut k: usize = 0;
        while k < players.len()
            invariant
                k <= players@.len(),
                derefs(out@) =~= players@.take(k as int),
            decreases players@.len() - k,
        {
            let ghost prev = out@;
            out.push(&players[k]);
            proof {
                assert(out@ =~= prev.push(&players@[k as int]));
                assert(derefs(out@) =~= derefs(prev).push(players@[k as int]));
                assert(players@.take(k + 1) =~= players@.take(k as int).push(players@[k as int]));
            }
            k = k + 1;
        }
        proof {
            assert(players@.take(players@.len() as int) =~= players@);
        }
        out
    }

    /// The players of the rounds before the one that is on.
    pub fn get_previous_rounds_players(&self) -> (r: Vec<&Player>)
        ensures
            derefs(r@) == flatten_rounds(before_round(self.rounds(), self.container_round() as int)),
    {
        self.player_container.previous_rounds_players()
    }

    /// The players of the round that is on, to change.
    pub fn get_players_mut(&mut self) -> (r: &mut Vec<Player>)
        requires
            old(self).container_round() < old(self).rounds().len(),
        ensures
            r@ == old(self).rounds()[old(self).container_round() as int],
            final(self).rounds() == old(self).rounds().update(old(self).container_round() as int, final(r)@),
            final(self).round() == old(self).round(),
            final(self).container_round() == old(self).container_round(),
            final(self).chosen() == old(self).chosen(),
            final(self).division_list() == old(self).division_list(),
            final(self).round_id_lists() == old(self).round_id_lists(),
            final(self).group_lists() == old(self).group_lists(),
    {
        self.player_container.players_mut()
    }

    /// The players of all rounds, round after round.
    pub fn all_players(&self) -> (r: Vec<&Player>)
        ensures
            derefs(r@) == flatten_rounds(self.rounds()),
    {
        let rounds = &self.player_container.rounds_with_players;
        let ghost rs = views(rounds@);
        let mut out: Vec<&Player> = Vec::new();
        let mut i: usize = 0;
        while i < rounds.len()
            invariant
                i <= rounds@.len(),
                rs == views(rounds@),
                derefs(out@) =~= flatten_rounds(rs.take(i as int)),
            decreases rounds@.len() - i,
        {
            let round = &rounds[i];
            let ghost before = derefs(out@);
            let mut k: usize = 0;
            while k < round.len()
                invariant
                    k <= round@.len(),
                    derefs(out@) =~= before + round@.take(k as int),
                decreases round@.len() - k,
            {
                let ghost prev = out@;
                out.push(&round[k]);
                proof {
                    assert(out@ =~= prev.push(&round@[k as int]));
                    assert(derefs(out@) =~= derefs(prev).push(round@[k as int]));
                    assert(round@.take(k + 1) =~= round@.take(k as int).push(round@[k as int]));
                }
                k = k + 1;
            }
            proof {
                assert(round@.take(round@.len() as int) =~= round@);
                assert(rs.take(i + 1).drop_last() =~= rs.take(i as int));
                assert(rs[i as int] == round@);
            }
            i = i + 1;
        }
        proof {
            assert(rs.take(rounds@.len() as int) =~= rs);
        }
        out
    }
}

/// The players of a list who played round `j`, in order.
pub open spec fn of_round(players: Seq<Player>, j: int) -> Seq<Player> {
    players.filter(round_pred(j))
}

/// Whether a player played round `j`.
pub open spec fn round_pred(j: int) -> spec_fn(Player) -> bool {
    |p: Player| p.round_ind == j
}

/// The round the leaderboard of round `j` is compared with: the one before, or
/// none for the first (a round number no event has).
pub open spec fn prior_round(j: int) -> int {
    if j == 0 { 1000 } else { j - 1 }
}

/// Copies of the players of a list who played round `j`.
fn copies_of_round(players: &Vec<&Player>, j: usize) -> (r: Vec<Player>)
    requires
        forall|i: int| 0 <= i < players@.len() ==> round_fits((#[trigger] players@[i]).rs()),
    ensures
        copies(r@, of_round(derefs(players@), j as int)),
        forall|i: int| 0 <= i < r@.len() ==> round_fits((#[trigger] r@[i]).rs()),
{
    let ghost all = derefs(players@);
    let mut out: Vec<Player> = Vec::new();
    let mut i: usize = 0;
    while i < players.len()
        invariant
            i <= players@.len(),
            all == derefs(players@),
            forall|k: int| 0 <= k < players@.len() ==> round_fits((#[trigger] players@[k]).rs()),
            copies(out@, all.take(i as int).filter(round_pred(j as int))),
            forall|k: int| 0 <= k < out@.len() ==> round_fits((#[trigger] out@[k]).rs()),
        decreases players@.len() - i,
    {
        let p: &Player = players[i];
        proof {
            assert(all.take(i + 1) =~= all.take(i as int).push(*p));
            all.take(i as int).lemma_filter_push(*p, round_pred(j as int));
            assert(round_fits(players@[i as int].rs()));
        }
        if p.round_ind == j {
            let ghost before = out@;
            out.push(p.duplicate());
            proof {
                let f = all.take(i + 1).filter(round_pred(j as int));
                assert(f == all.take(i as int).filter(round_pred(j as int)).push(*p));
                assert forall|k: int| 0 <= k < out@.len() implies copy_of(#[trigger] out@[k], f[k]) by {
                    if k < before.len() {
                        assert(out@[k] == before[k]);
                    }
                }
            }
        }
        i = i + 1;
    }
    proof {
        assert(all.take(players@.len() as int) =~= all);
    }
    out
}

proof fn lemma_previous_total_copies(a: Seq<Player>, b: Seq<Player>, id: Seq<char>, n: int)
    requires
        copies(a, b),
        n <= a.len(),
    ensures
        previous_total(a, id, n) == previous_total(b, id, n),
    decreases n,
{
    if n > 0 {
        lemma_previous_total_copies(a, b, id, n - 1);
        assert(copy_of(a[n - 1], b[n - 1]));
    }
}

pub proof fn lemma_can_count_copies(x: Player, y: Player, a: Seq<Player>, b: Seq<Player>)
    requires
        copy_of(x, y),
        copies(a, b),
        can_count(y, b),
    ensures
        can_count(x, a),
{
    assert forall|k: int| 0 <= k <= a.len() implies isize::MIN <= #[trigger] previous_total(a, x.player_id@, k) <= isize::MAX by {
        lemma_previous_total_copies(a, b, x.player_id@, k);
        assert(isize::MIN <= previous_total(b, y.player_id@, k) <= isize::MAX);
    }
    lemma_previous_total_copies(a, b, x.player_id@, a.len() as int);
}

proof fn lemma_states_in_order(states: Seq<LeaderboardState>, r: int, from: int)
    requires
        0 <= from <= r < states.len(),
        forall|j: int| 0 <= j < states.len() ==> (#[trigger] states[j]).round == j,
    ensures
        first_state(states, r as usize, from) == Some(r),
    decreases r - from,
{
    assert(states[r].round == r);
    assert(r as usize == r);
    if from < r {
        assert(states[from].round == from);
        lemma_states_in_order(states, r, from + 1);
    }
}

impl RustHandler {
    /// The players of the rounds before the one that is on.
    pub open spec fn previous_players(&self) -> Seq<Player> {
        flatten_rounds(before_round(self.rounds(), self.container_round() as int))
    }

    /// Whether the boards of the earlier rounds can be counted without overflow.
    pub open spec fn can_count_previous(&self) -> bool {
        let prev = self.previous_players();
        &&& forall|i: int| 0 <= i < prev.len() ==> round_fits((#[trigger] prev[i]).rs())
        &&& forall|j: int, i: int| 0 <= j < self.round() && 0 <= i < of_round(prev, j).len() ==>
            can_count(#[trigger] of_round(prev, j)[i], of_round(prev, prior_round(j)))
    }

    /// Whether `r` holds the boards of the earlier rounds, one for each round
    /// in order: the copies of that round's players among the earlier
    /// players, counted against the copies of those of the round before.
    pub open spec fn previous_leaderboards(&self, r: Leaderboard) -> bool {
        let prev = self.previous_players();
        &&& r.skip == 0
        &&& !r.cycle
        &&& r.broadcast_type == BroadcastType::Live
        &&& r.states@.len() == self.round()
        &&& forall|j: int| 0 <= j < self.round() ==> {
            &&& (#[trigger] r.states@[j]).round == j
            &&& r.states@[j].where_to_start == LeaderboardStart::Latest
            &&& exists|cur: Seq<Player>, before: Seq<Player>| #![trigger copies(cur, of_round(prev, j)), copies(before, of_round(prev, prior_round(j)))]
                copies(cur, of_round(prev, j)) && copies(before, of_round(prev, prior_round(j)))
                && r.states@[j].players@ == stable_sorted(cur.map_values(|p: Player| counted(p, before)))
        }
    }

    /// The leaderboards of the rounds before the one that is on, one for each
    /// round in order: the copies of that round's players among the earlier
    /// players, counted against the copies of those of the round before (see
    /// `LeaderboardState::new`).
    pub fn get_previous_leaderboards(&self) -> (r: Leaderboard)
        requires
            self.can_count_previous(),
        ensures
            self.previous_leaderboards(r),
    {
        let mut lb = Leaderboard::default();
        if self.round_ind == 0 {
            return lb;
        }
        let previous = self.get_previous_rounds_players();
        let ghost prev = derefs(previous@);
        assert(prev == self.previous_players());
        assert(forall|i: int| 0 <= i < prev.len() ==> round_fits((#[trigger] prev[i]).rs()));
        assert(forall|j: int, i: int| 0 <= j < self.round() && 0 <= i < of_round(prev, j).len() ==>
            can_count(#[trigger] of_round(prev, j)[i], of_round(prev, prior_round(j))));
        let mut round: usize = 0;
        while round < self.round_ind
            invariant
                round <= self.round(),
                prev == derefs(previous@),
                prev == flatten_rounds(before_round(self.rounds(), self.container_round() as int)),
                forall|i: int| 0 <= i < prev.len() ==> round_fits((#[trigger] prev[i]).rs()),
                forall|j: int, i: int| 0 <= j < self.round() && 0 <= i < of_round(prev, j).len() ==>
                    can_count(#[trigger] of_round(prev, j)[i], of_round(prev, prior_round(j))),
                lb.skip == 0,
                !lb.cycle,
                lb.broadcast_type == BroadcastType::Live,
                lb.states@.len() == round,
                forall|j: int| 0 <= j < round ==> {
                    &&& (#[trigger] lb.states@[j]).round == j
                    &&& lb.states@[j].where_to_start == LeaderboardStart::Latest
                    &&& exists|cur: Seq<Player>, before: Seq<Player>| #![trigger copies(cur, of_round(prev, j)), copies(before, of_round(prev, prior_round(j)))]
                        copies(cur, of_round(prev, j)) && copies(before, of_round(prev, prior_round(j)))
                        && lb.states@[j].players@ == stable_sorted(cur.map_values(|p: Player| counted(p, before)))
                },
            decreases self.round() - round,
        {
            proof {
                assert forall|i: int| 0 <= i < previous@.len() implies round_fits((#[trigger] previous@[i]).rs()) by {
                    assert(prev[i] == *previous@[i]);
                }
            }
            let prior: usize = if round == 0 { 1000 } else { round - 1 };
            let cur = copies_of_round(&previous, round);
            let before = copies_of_round(&previous, prior);
            proof {
                assert forall|i: int| 0 <= i < cur@.len() implies #[trigger] can_count(cur@[i], before@) by {
                    assert(can_count(of_round(prev, round as int)[i], of_round(prev, prior_round(round as int))));
                    lemma_can_count_copies(cur@[i], of_round(prev, round as int)[i], before@, of_round(prev, prior_round(round as int)));
                }
            }
            let ghost cv = cur@;
            let ghost bv = before@;
            let state = LeaderboardState::new(round, cur, before);
            let ghost old_states = lb.states@;
            proof {
                if round > 0 {
                    lemma_states_in_order(old_states, round - 1, 0);
                }
            }
            lb.add_state(state);
            proof {
                assert(lb.states@ == old_states.push(state));
                assert forall|j: int| 0 <= j < round + 1 implies {
                    &&& (#[trigger] lb.states@[j]).round == j
                    &&& lb.states@[j].where_to_start == LeaderboardStart::Latest
                    &&& exists|cur: Seq<Player>, before: Seq<Player>| #![trigger copies(cur, of_round(prev, j)), copies(before, of_round(prev, prior_round(j)))]
                        copies(cur, of_round(prev, j)) && copies(before, of_round(prev, prior_round(j)))
                        && lb.states@[j].players@ == stable_sorted(cur.map_values(|p: Player| counted(p, before)))
                } by {
                    if j == round {
                        assert(copies(cv, of_round(prev, j)) && copies(bv, of_round(prev, prior_round(j))));
                    } else {
                        assert(lb.states@[j] == old_states[j]);
                    }
                }
            }
            round = round + 1;
        }
        lb
    }

    /// Counts the round scores of copies of the earlier rounds' players; the
    /// players kept are left as they are.
    pub fn add_total_score_to_players(&mut self)
        requires
            forall|i: int| 0 <= i < old(self).previous_players().len() ==> {
                let p = #[trigger] old(self).previous_players()[i];
                &&& round_fits(p.rs())
                &&& isize::MIN <= p.total_score + relative_sum(p.rs(), p.rs().len() as int) <= isize::MAX
            },
        ensures
            *final(self) == *old(self),
    {
        let previous = self.get_previous_rounds_players();
        proof {
            let all = self.previous_players();
            assert forall|k: int| 0 <= k < previous@.len() implies {
                let p = *(#[trigger] previous@[k]);
                &&& round_fits(p.rs())
                &&& isize::MIN <= p.total_score + relative_sum(p.rs(), p.rs().len() as int) <= isize::MAX
            } by {
                assert(all[k] == *previous@[k]);
            }
        }
        let mut i: usize = 0;
        while i < previous.len()
            invariant
                i <= previous@.len(),
                forall|k: int| 0 <= k < previous@.len() ==> {
                    let p = *(#[trigger] previous@[k]);
                    &&& round_fits(p.rs())
                    &&& isize::MIN <= p.total_score + relative_sum(p.rs(), p.rs().len() as int) <= isize::MAX
                },
            decreases previous@.len() - i,
        {
            let mut copy = previous[i].duplicate();
            copy.fix_round_score(None);
            i = i + 1;
        }
    }
}


/// Whether the handler can be built from what was read of the events (see
/// `events_ready`): each event has no more rounds than there are lists of
/// groups, and each player on a group can be read against the listed
/// divisions.
pub fn events_are_ready(events: &Vec<Vec<RoundData>>, groups: &Vec<Vec<Group>>, divisions: Vec<Division>) -> (r: bool)
    ensures
        r == events_ready(events@.map_values(|v: Vec<RoundData>| v@), groups@, listed_divisions(divisions@).map_values(|t: (Seq<char>, Seq<char>, Seq<char>)| t.0)),
{
    let ghost given = divisions@;
    let divs = order_divisions(divisions);
    let ghost ids = listed_divisions(given).map_values(|t: (Seq<char>, Seq<char>, Seq<char>)| t.0);
    proof {
        assert(divs@.map_values(|d: Division| d.id@) =~= ids) by {
            assert forall|j: int| 0 <= j < divs@.len() implies divs@.map_values(|d: Division| d.id@)[j] == ids[j] by {
                assert(divs@.map_values(|d: Division| division_view(d))[j] == listed_divisions(given)[j]);
            }
        }
    }
    let ghost ev = events@.map_values(|v: Vec<RoundData>| v@);
    let mut e: usize = 0;
    while e < events.len()
        invariant
            e <= events@.len(),
            ev == events@.map_values(|v: Vec<RoundData>| v@),
            given == divisions@,
            ids == listed_divisions(given).map_values(|t: (Seq<char>, Seq<char>, Seq<char>)| t.0),
            divs@.map_values(|d: Division| d.id@) == ids,
            forall|x: int| 0 <= x < e ==> {
                &&& (#[trigger] ev[x]).len() <= groups@.len()
                &&& forall|r: int| 0 <= r < ev[x].len() ==> round_ready(
                    (#[trigger] ev[x][r]).players@,
                    groups@[r]@,
                    ev[x][r].results.view_entries(),
                    holes_view(ev[x][r].holes@),
                    ids,
                )
            },
        decreases events@.len() - e,
    {
        let event = &events[e];
        assert(ev[e as int] == event@);
        if event.len() > groups.len() {
            return false;
        }
        let mut r: usize = 0;
        while r < event.len()
            invariant
                r <= event@.len(),
                e < events@.len(),
                ev == events@.map_values(|v: Vec<RoundData>| v@),
                event@.len() <= groups@.len(),
                ev[e as int] == event@,
                given == divisions@,
                ids == listed_divisions(given).map_values(|t: (Seq<char>, Seq<char>, Seq<char>)| t.0),
                divs@.map_values(|d: Division| d.id@) == ids,
                forall|y: int| 0 <= y < r ==> round_ready(
                    (#[trigger] event@[y]).players@,
                    groups@[y]@,
                    event@[y].results.view_entries(),
                    holes_view(event@[y].holes@),
                    ids,
                ),
            decreases event@.len() - r,
        {
            let d = &event[r];
            if !round_is_ready(&d.players, &groups[r], &d.results, &d.holes, &divs) {
                assert(ev[e as int][r as int] == event@[r as int]);
                assert(!round_ready(ev[e as int][r as int].players@, groups@[r as int]@, ev[e as int][r as int].results.view_entries(), holes_view(ev[e as int][r as int].holes@), ids));
                return false;
            }
            r = r + 1;
        }
        e = e + 1;
    }
    true
}

} // verus!
