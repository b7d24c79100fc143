//! The groups (cards) of an event, as the scoring service reports them and as
//! the controller keeps them.
use vstd::prelude::*;

use crate::division::Division;
use crate::dto::Player as ListedPlayer;
use crate::sort::{stable_sorted, SortKey};
use crate::text::{join2, lemma_lex_total, lemma_lex_transitive, lex_le, str_eq, str_le};

verus! {

/// Whether a player did not start.
#[derive(Clone, Copy, Debug, PartialEq, Eq, Structural)]
pub struct Dns {
    pub is_dns: bool,
}

/// Whether a player did not finish.
#[derive(Clone, Copy, Debug, PartialEq, Eq, Structural)]
pub struct Dnf {
    pub is_dnf: bool,
}

/// A course.
#[derive(Clone, Debug)]
pub struct Course {
    pub name: String,
}

/// A layout of a course.
#[derive(Clone, Debug)]
pub struct Layout {
    pub name: String,
    pub course: Option<Course>,
}

impl Layout {
    /// A copy of the layout.
    pub fn duplicate(&self) -> (r: Self)
        ensures
            r.name@ == self.name@,
            r.course is Some == self.course is Some,
            r.course matches Some(c) ==> c.name@ == self.course->0.name@,
    {
        Layout {
            name: self.name.clone(),
            course: match &self.course {
                Some(c) => Some(Course { name: c.name.clone() }),
                None => None,
            },
        }
    }
}

/// The state of a group.
#[derive(Clone, Copy, Debug, PartialEq, Eq, Structural)]
pub enum GroupStatus {
    Closed,
    Open,
    Done,
}

/// A player's name as the groups report it.
#[derive(Clone, Debug)]
pub struct GroupUser {
    pub first_name: Option<String>,
    pub last_name: Option<String>,
}

/// A player of a group.
#[derive(Clone, Debug)]
pub struct GroupPlayer {
    pub id: String,
    pub user: GroupUser,
}

/// The link between a group and a player.
#[derive(Clone, Debug)]
pub struct GroupPlayerConnection {
    pub group_id: String,
    pub player: GroupPlayer,
}

/// A link of a group: to a player, or of a kind the controller does not know.
#[derive(Clone, Debug)]
pub enum GroupPlayerConnectionTypeCombined {
    GroupPlayerConnection(GroupPlayerConnection),
    Unknown,
}

/// A group as the scoring service reports it (its place in the pool counted
/// from zero, the starting hole and time already read).
#[derive(Clone, Debug)]
pub struct QueryGroup {
    pub id: String,
    pub status: GroupStatus,
    pub position: usize,
    pub player_connections_v2: Vec<GroupPlayerConnectionTypeCombined>,
    pub start_hole: Option<u8>,
    /// The start time, in seconds since the Unix epoch.
    pub starts_at: Option<i64>,
}

/// The version of a layout a pool plays.
#[derive(Clone, Debug)]
pub struct LayoutVersion {
    pub layout: Layout,
}

/// A pool of a round.
#[derive(Clone, Debug)]
pub struct Pool {
    pub groups: Vec<QueryGroup>,
    pub layout_version: Option<LayoutVersion>,
}

/// A round of the groups query.
#[derive(Clone, Debug)]
pub struct GroupsRound {
    pub pools: Vec<Pool>,
}

/// The event of the groups query.
#[derive(Clone, Debug)]
pub struct GroupsEvent {
    pub rounds: Vec<Option<GroupsRound>>,
}

/// The answer to the groups query.
#[derive(Clone, Debug)]
pub struct GroupsQuery {
    pub event: Option<GroupsEvent>,
}

/// A group (card) as the controller keeps it.
#[derive(Clone, Debug)]
pub struct Group {
    pub players: Vec<ListedPlayer>,
    pub id: String,
    pub group_number: usize,
    pub start_at_hole: u8,
    pub start_time: Option<u32>,
    pub layout: Layout,
}

/// The seconds since midnight (UTC) of a moment given in seconds since the
/// Unix epoch, or `None` where chrono cannot represent the date. The call goes
/// to `chrono::DateTime::from_timestamp`, then `DateTime::time` and
/// `Timelike::num_seconds_from_midnight`. Claimed of them: the seconds are the
/// timestamp modulo a day, and any timestamp within 8·10^12 seconds of the
/// epoch (about 253,000 years) can be represented.
#[verifier::external_body]
fn seconds_from_midnight(timestamp: i64) -> (r: Option<u32>)
    ensures
        r matches Some(s) ==> s as int == timestamp as int % 86400,
        -8_000_000_000_000 <= timestamp <= 8_000_000_000_000 ==> r is Some,
{
    match chrono::DateTime::from_timestamp(timestamp, 0) {
        Some(d) => Some(chrono::Timelike::num_seconds_from_midnight(&d.time())),
        None => None,
    }
}

/// The ids of the players of a group, in order.
pub open spec fn player_ids_of(g: Group) -> Seq<Seq<char>> {
    g.players@.map_values(|p: ListedPlayer| p.id@)
}

impl Group {
    /// A group; the start time is read as seconds since midnight.
    pub fn new(
        id: String,
        players: Vec<ListedPlayer>,
        group_number: usize,
        start_at: u8,
        date_time: Option<i64>,
        layout: Layout,
    ) -> (r: Self)
        ensures
            r.id@ == id@,
            r.players@ == players@,
            r.group_number == group_number,
            r.start_at_hole == start_at,
            match date_time {
                Some(t) => r.start_time matches Some(s) ==> s as int == t as int % 86400,
                None => r.start_time is None,
            },
            (date_time matches Some(t) && -8_000_000_000_000 <= t <= 8_000_000_000_000) ==> r.start_time is Some,
            r.layout == layout,
    {
        let start_time = match date_time {
            Some(t) => seconds_from_midnight(t),
            None => None,
        };
        Group { players, id, group_number, start_at_hole: start_at, start_time, layout }
    }

    /// The ids of the players of the group, in order.
    pub fn player_ids(&self) -> (r: Vec<String>)
        ensures
            r@.map_values(|s: String| s@) == player_ids_of(*self),
    {
        let mut out: Vec<String> = Vec::new();
        let mut i: usize = 0;
        while i < self.players.len()
            invariant
                i <= self.players@.len(),
                out@.map_values(|s: String| s@) =~= self.players@.take(i as int).map_values(|p: ListedPlayer| p.id@),
            decreases self.players@.len() - i,
        {
            let ghost before = out@.map_values(|s: String| s@);
            out.push(self.players[i].id.clone());
            proof {
                assert(out@.map_values(|s: String| s@) =~= before.push(self.players@[i as int].id@));
                assert(self.players@.take(i + 1) =~= self.players@.take(i as int).push(self.players@[i as int]));
            }
            i = i + 1;
        }
        proof {
            assert(self.players@.take(self.players@.len() as int) =~= self.players@);
        }
        out
    }
}

/// The players of a group's links: those to a player, in order, as id and
/// `First Last`.
pub open spec fn linked_players(links: Seq<GroupPlayerConnectionTypeCombined>) -> Seq<(Seq<char>, Seq<char>)>
    decreases links.len(),
{
    if links.len() == 0 {
        seq![]
    } else {
        linked_players(links.drop_last()) + match links.last() {
            GroupPlayerConnectionTypeCombined::GroupPlayerConnection(c) => seq![(
                c.player.id@,
                c.player.user.first_name->0@ + " "@ + c.player.user.last_name->0@,
            )],
            GroupPlayerConnectionTypeCombined::Unknown => seq![],
        }
    }
}

/// Whether every player link of a group has both names.
pub open spec fn names_known(links: Seq<GroupPlayerConnectionTypeCombined>) -> bool {
    forall|i: int| 0 <= i < links.len() ==> (#[trigger] links[i] matches GroupPlayerConnectionTypeCombined::GroupPlayerConnection(c)
        ==> c.player.user.first_name is Some && c.player.user.last_name is Some)
}

/// The division a player of a group is listed in until the event says more.
pub const LISTED_DIVISION_NAME: &'static str = "Mixed Pro Open";
pub const LISTED_DIVISION_SHORT: &'static str = "MPO";

/// Whether `r` is the group `q` as the controller keeps it, its layout aside:
/// the same id, its number counted from one, its starting hole (0 when
/// unknown), its start time as seconds since midnight, and its linked players
/// in order, each with no picture, no holes played, no queue place, not in
/// focus, listed at place 100 in the open pro division.
pub open spec fn kept_group(q: QueryGroup, r: Group) -> bool {
    &&& r.id@ == q.id@
    &&& r.group_number == q.position + 1
    &&& r.start_at_hole == match q.start_hole {
        Some(h) => h,
        None => 0u8,
    }
    &&& q.starts_at is None ==> r.start_time is None
    &&& q.starts_at matches Some(t) ==> (r.start_time matches Some(s) ==> s as int == t as int % 86400)
    &&& (q.starts_at matches Some(t) && -8_000_000_000_000 <= t <= 8_000_000_000_000) ==> r.start_time is Some
    &&& r.players@.map_values(|p: ListedPlayer| (p.id@, p.name@)) == linked_players(q.player_connections_v2@)
    &&& forall|i: int| 0 <= i < r.players@.len() ==> (#[trigger] r.players@[i]).index == 100 && r.players@[i].queue is None
        && r.players@[i].image_url is None && r.players@[i].holes_finished == 0 && !r.players@[i].focused
        && r.players@[i].division.name@ == LISTED_DIVISION_NAME@ && r.players@[i].division.short_name@ == LISTED_DIVISION_SHORT@
}

impl QueryGroup {
    /// The group as the controller keeps it (see `kept_group`), with the
    /// layout given.
    pub fn to_dto_group(self, layout: Layout) -> (r: Group)
        requires
            names_known(self.player_connections_v2@),
            self.position < usize::MAX,
        ensures
            kept_group(self, r),
            r.layout == layout,
    {
        let links = &self.player_connections_v2;
        let mut players: Vec<ListedPlayer> = Vec::new();
        let mut i: usize = 0;
        while i < links.len()
            invariant
                i <= links@.len(),
                names_known(links@),
                players@.map_values(|p: ListedPlayer| (p.id@, p.name@)) =~= linked_players(links@.take(i as int)),
                forall|k: int| 0 <= k < players@.len() ==> (#[trigger] players@[k]).index == 100 && players@[k].queue is None
                    && players@[k].image_url is None && players@[k].holes_finished == 0 && !players@[k].focused
                    && players@[k].division.name@ == LISTED_DIVISION_NAME@ && players@[k].division.short_name@ == LISTED_DIVISION_SHORT@,
            decreases links@.len() - i,
        {
            proof {
                assert(links@.take(i + 1).drop_last() =~= links@.take(i as int));
                assert(links@.take(i + 1).last() == links@[i as int]);
            }
            match &links[i] {
                GroupPlayerConnectionTypeCombined::GroupPlayerConnection(connection) => {
                    let player = &connection.player;
                    let first = match &player.user.first_name {
                        Some(f) => f.clone(),
                        None => String::new(),
                    };
                    let last = match &player.user.last_name {
                        Some(l) => l.clone(),
                        None => String::new(),
                    };
                    let mut name = first;
                    name.append(" ");
                    name.append(last.as_str());
                    let division = Division {
                        id: String::new(),
                        short_name: String::from_str(LISTED_DIVISION_SHORT),
                        name: String::from_str(LISTED_DIVISION_NAME),
                    };
                    let listed = ListedPlayer::new(player.id.clone(), name, None, 0, 100, None, division);
                    players.push(listed);
                },
                GroupPlayerConnectionTypeCombined::Unknown => {},
            }
            i = i + 1;
        }
        proof {
            assert(links@.take(links@.len() as int) =~= links@);
        }
        let start_at_hole = match self.start_hole {
            Some(h) => h,
            None => 0,
        };
        let start_time = match self.starts_at {
            Some(t) => seconds_from_midnight(t),
            None => None,
        };
        Group { players, id: self.id, group_number: self.position + 1, start_at_hole, start_time, layout }
    }
}

/// A group with the index of its pool, ordered by id.
pub struct PooledGroup {
    pub group: QueryGroup,
    pub pool: usize,
}

impl SortKey for PooledGroup {
    open spec fn le_spec(&self, other: &Self) -> bool {
        lex_le(self.group.id@, other.group.id@)
    }

    proof fn lemma_le_total(a: &Self, b: &Self) {
        lemma_lex_total(a.group.id@, b.group.id@);
    }

    proof fn lemma_le_transitive(a: &Self, b: &Self, c: &Self) {
        lemma_lex_transitive(a.group.id@, b.group.id@, c.group.id@);
    }

    fn le(&self, other: &Self) -> (r: bool) {
        str_le(self.group.id.as_str(), other.group.id.as_str())
    }
}

/// The groups of the pools, in order, each with the index of its pool.
pub open spec fn pooled_of(pools: Seq<Pool>) -> Seq<PooledGroup>
    decreases pools.len(),
{
    if pools.len() == 0 {
        seq![]
    } else {
        let i = (pools.len() - 1) as usize;
        pooled_of(pools.drop_last()) + pools.last().groups@.map_values(|g: QueryGroup| PooledGroup { group: g, pool: i })
    }
}

/// A list of pooled groups with each run of one id cut to its first group.
pub open spec fn dedup_pooled(s: Seq<PooledGroup>) -> Seq<PooledGroup>
    decreases s.len(),
{
    if s.len() == 0 {
        seq![]
    } else {
        let rest = dedup_pooled(s.drop_last());
        if s.len() > 1 && s[s.len() - 2].group.id@ == s.last().group.id@ {
            rest
        } else {
            rest.push(s.last())
        }
    }
}

/// The groups of a round: those of all its pools ordered by id (pool order
/// kept among equal ids), the first of each id, each with its pool's index.
pub open spec fn round_groups(pools: Seq<Pool>) -> Seq<PooledGroup> {
    dedup_pooled(stable_sorted(pooled_of(pools)))
}

/// Whether `l` is the layout a pool plays: that of its layout version, or an
/// empty one (no name, no course) where it has none.
pub open spec fn plays_layout(pool: Pool, l: Layout) -> bool {
    match pool.layout_version {
        Some(v) => l.name@ == v.layout.name@ && (l.course is Some <==> v.layout.course is Some)
            && (l.course matches Some(c) ==> c.name@ == v.layout.course->0.name@),
        None => l.name@ == Seq::<char>::empty() && l.course is None,
    }
}

/// Whether a group has known names and a place that can be counted from one.
pub open spec fn group_ready(g: QueryGroup) -> bool {
    names_known(g.player_connections_v2@) && g.position < usize::MAX
}

/// Whether every group of every pool is ready.
pub open spec fn pools_ready(pools: Seq<Pool>) -> bool {
    forall|i: int, j: int| 0 <= i < pools.len() && 0 <= j < pools[i].groups@.len() ==> group_ready(
        #[trigger] pools[i].groups@[j],
    )
}

proof fn lemma_pooled_ready(pools: Seq<Pool>)
    requires
        pools_ready(pools),
    ensures
        forall|k: int| 0 <= k < pooled_of(pools).len() ==> group_ready(#[trigger] pooled_of(pools)[k].group)
            && pooled_of(pools)[k].pool < pools.len(),
    decreases pools.len(),
{
    if pools.len() > 0 {
        let front = pools.drop_last();
        assert(pools_ready(front)) by {
            assert forall|i: int, j: int| 0 <= i < front.len() && 0 <= j < front[i].groups@.len() implies group_ready(
                #[trigger] front[i].groups@[j],
            ) by {
                assert(front[i] == pools[i]);
            }
        }
        lemma_pooled_ready(front);
        let last = pools.last().groups@;
        assert forall|k: int| 0 <= k < pooled_of(pools).len() implies group_ready(#[trigger] pooled_of(pools)[k].group)
            && pooled_of(pools)[k].pool < pools.len() by {
            let f = pooled_of(front);
            if k >= f.len() {
                assert(pools[pools.len() - 1] == pools.last());
                assert(group_ready(pools[pools.len() - 1].groups@[k - f.len()]));
            }
        }
    }
}

/// The groups of a round: those of all its pools, ordered by id, each id once
/// (the first in pool order), each kept as `kept_group` says with the layout
/// of its pool.
pub fn groups_of_round(round: GroupsRound) -> (r: Vec<Group>)
    requires
        pools_ready(round.pools@),
    ensures
        r@.len() == round_groups(round.pools@).len(),
        forall|i: int| 0 <= i < r@.len() ==> kept_group(#[trigger] round_groups(round.pools@)[i].group, r@[i])
            && plays_layout(round.pools@[round_groups(round.pools@)[i].pool as int], r@[i].layout),
{
    let mut pools = round.pools;
    let ghost all_pools = pools@;
    proof {
        lemma_pooled_ready(all_pools);
    }
    let n = pools.len();
    let mut pooled: Vec<PooledGroup> = Vec::new();
    let mut layouts: Vec<Layout> = Vec::new();
    let mut i: usize = 0;
    while i < n
        invariant
            i <= n,
            n == all_pools.len(),
            pools@ =~= all_pools.subrange(i as int, n as int),
            pooled@ =~= pooled_of(all_pools.take(i as int)),
            layouts@.len() == i,
            forall|q: int| 0 <= q < i ==> plays_layout(all_pools[q], #[trigger] layouts@[q]),
        decreases n - i,
    {
        let pool = pools.remove(0);
        assert(pool == all_pools[i as int]);
        let layout = match pool.layout_version {
            Some(v) => v.layout,
            None => Layout { name: String::new(), course: None },
        };
        layouts.push(layout);
        let mut groups = pool.groups;
        let ghost gs = groups@;
        let m = groups.len();
        let ghost before = pooled@;
        let mut j: usize = 0;
        while j < m
            invariant
                j <= m,
                m == gs.len(),
                groups@ =~= gs.subrange(j as int, m as int),
                pooled@ =~= before + gs.take(j as int).map_values(|g: QueryGroup| PooledGroup { group: g, pool: i }),
            decreases m - j,
        {
            let g = groups.remove(0);
            assert(g == gs[j as int]);
            pooled.push(PooledGroup { group: g, pool: i });
            proof {
                assert(gs.take(j + 1) =~= gs.take(j as int).push(g));
            }
            j = j + 1;
        }
        proof {
            assert(all_pools.take(i + 1).drop_last() =~= all_pools.take(i as int));
            assert(all_pools.take(i + 1).last() == pool);
            assert(gs.take(m as int) =~= gs);
            assert(pooled@ =~= pooled_of(all_pools.take(i + 1)));
        }
        i = i + 1;
    }
    proof {
        assert(all_pools.take(n as int) =~= all_pools);
    }
    let sorted = crate::sort::sorted_by_order(pooled);
    proof {
        crate::sort::lemma_stable_sorted(pooled_of(all_pools));
    }
    let mut sorted = sorted;
    let ghost all_sorted = sorted@;
    let total = sorted.len();
    let mut out: Vec<Group> = Vec::new();
    let mut last_id: Option<String> = None;
    let mut k: usize = 0;
    while k < total
        invariant
            k <= total,
            total == all_sorted.len(),
            all_sorted == stable_sorted(pooled_of(all_pools)),
            all_sorted.to_multiset() =~= pooled_of(all_pools).to_multiset(),
            forall|q: int| 0 <= q < pooled_of(all_pools).len() ==> group_ready(#[trigger] pooled_of(all_pools)[q].group)
                && pooled_of(all_pools)[q].pool < all_pools.len(),
            layouts@.len() == all_pools.len(),
            sorted@ =~= all_sorted.subrange(k as int, total as int),
            forall|q: int| 0 <= q < all_pools.len() ==> plays_layout(all_pools[q], #[trigger] layouts@[q]),
            out@.len() == dedup_pooled(all_sorted.take(k as int)).len(),
            forall|q: int| 0 <= q < out@.len() ==> kept_group(#[trigger] dedup_pooled(all_sorted.take(k as int))[q].group, out@[q])
                && plays_layout(all_pools[dedup_pooled(all_sorted.take(k as int))[q].pool as int], out@[q].layout),
            k > 0 ==> (last_id matches Some(l) && l@ == all_sorted[k - 1].group.id@),
            k == 0 ==> last_id is None,
        decreases total - k,
    {
        let p = sorted.remove(0);
        assert(p == all_sorted[k as int]);
        proof {
            assert(all_sorted.contains(p));
            all_sorted.to_multiset_ensures();
            pooled_of(all_pools).to_multiset_ensures();
            assert(all_sorted.to_multiset().count(p) > 0);
            assert(pooled_of(all_pools).to_multiset().count(p) > 0);
            assert(pooled_of(all_pools).contains(p));
        }
        let repeat = match &last_id {
            Some(l) => str_eq(l.as_str(), p.group.id.as_str()),
            None => false,
        };
        assert(k > 0 ==> (repeat == (all_sorted[k - 1].group.id@ == p.group.id@)));
        assert(k == 0 ==> !repeat);
        let id_copy = p.group.id.clone();
        let ghost t = all_sorted.take(k + 1);
        let ghost d = dedup_pooled(all_sorted.take(k as int));
        proof {
            assert(t.drop_last() =~= all_sorted.take(k as int));
            assert(t.last() == p);
            if k > 0 {
                assert(t[k - 1] == all_sorted[k - 1]);
            }
            assert(repeat == (t.len() > 1 && t[t.len() - 2].group.id@ == t.last().group.id@));
        }
        let ghost old_out = out@;
        let ghost pg = p.group;
        let ghost pp = p.pool;
        if !repeat {
            let layout = layouts[p.pool].duplicate();
            let g = p.group.to_dto_group(layout);
            out.push(g);
            proof {
                assert(dedup_pooled(t) == d.push(p));
                assert forall|q: int| 0 <= q < out@.len() implies kept_group(#[trigger] dedup_pooled(t)[q].group, out@[q])
                    && plays_layout(all_pools[dedup_pooled(t)[q].pool as int], out@[q].layout) by {
                    if q < old_out.len() {
                        assert(out@[q] == old_out[q]);
                        assert(dedup_pooled(t)[q] == d[q]);
                    } else {
                        assert(dedup_pooled(t)[q] == p);
                        assert(plays_layout(all_pools[pp as int], layouts@[pp as int]));
                    }
                }
            }
        } else {
            proof {
                assert(dedup_pooled(t) == d);
            }
        }
        last_id = Some(id_copy);
        k = k + 1;
    }
    proof {
        assert(all_sorted.take(total as int) =~= all_sorted);
    }
    out
}

} // verus!
