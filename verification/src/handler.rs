//! The data of an event, read from the scoring service: divisions, groups and
//! the players of each round.
use vstd::prelude::*;

use crate::division::Division;
use crate::error::Error;
use crate::event::{player_ids_of, Dnf, Dns, Group};
use crate::results::{entry_index, PlayerResults};
use crate::standings::{Leaderboard, LeaderboardState};
use crate::hole::{find_hole_spec, Holes};
use crate::player::{BroadcastType, Player, RankUpDown};
use crate::round::{HoleResult, PlayerRound};
use crate::sort::stable_sorted;
use crate::text::{join2, str_eq};
use crate::tjing;

verus! {

/// What `char::is_alphabetic` says of a character.
pub uninterp spec fn alphabetic(c: char) -> bool;

/// Whether a character is alphabetic, by `char::is_alphabetic`; the result is
/// named `alphabetic`.
#[verifier::external_body]
fn is_alphabetic(c: char) -> (r: bool)
    ensures
        r == alphabetic(c),
{
    c.is_alphabetic()
}

/// What `str::to_lowercase` gives for a text.
pub uninterp spec fn lowercase(s: Seq<char>) -> Seq<char>;

/// The text in lower case, by `str::to_lowercase`; the result is named
/// `lowercase`.
#[verifier::external_body]
fn to_lowercase(s: &str) -> (r: String)
    ensures
        r@ == lowercase(s@),
{
    s.to_lowercase()
}

/// The alphabetic characters of a text, in order.
pub open spec fn letters(s: Seq<char>) -> Seq<char> {
    s.filter(|c: char| alphabetic(c))
}

/// Keeps the alphabetic characters of a text.
pub fn retain_alphabetic(s: &str) -> (r: String)
    ensures
        r@ == letters(s@),
{
    let ghost pred = |c: char| alphabetic(c);
    let n = s.unicode_len();
    let mut out = String::new();
    let mut i: usize = 0;
    while i < n
        invariant
            i <= n,
            n == s@.len(),
            pred == (|c: char| alphabetic(c)),
            out@ =~= s@.take(i as int).filter(pred),
        decreases n - i,
    {
        let c = s.get_char(i);
        proof {
            assert(s@.take(i + 1) =~= s@.take(i as int).push(c));
            s@.take(i as int).lemma_filter_push(c, pred);
        }
        if is_alphabetic(c) {
            let one = s.substring_char(i, i + 1);
            proof {
                assert(one@ =~= seq![c]);
            }
            out.append(one);
        }
        i = i + 1;
    }
    proof {
        assert(s@.take(n as int) =~= s@);
    }
    out
}

/// A player's profile at the scoring service.
#[derive(Clone, Debug)]
pub struct UserProfile {
    pub profile_image_url: Option<String>,
    pub pdga_number: Option<u32>,
}

/// A player's account at the scoring service.
#[derive(Clone, Debug)]
pub struct User {
    pub first_name: Option<String>,
    pub last_name: Option<String>,
    pub profile: Option<UserProfile>,
}

/// A player of an event as the scoring service reports it.
#[derive(Clone, Debug)]
pub struct QueryPlayer {
    pub user: User,
    pub dnf: Dnf,
    pub dns: Dns,
    pub division: Division,
    pub id: String,
}

/// The index of the first division with the given id.
pub open spec fn division_index(divs: Seq<Division>, id: Seq<char>, from: int) -> Option<int>
    decreases divs.len() - from,
{
    if from < 0 || from >= divs.len() {
        None
    } else if divs[from].id@ == id {
        Some(from)
    } else {
        division_index(divs, id, from + 1)
    }
}

pub proof fn lemma_division_index(divs: Seq<Division>, id: Seq<char>, from: int)
    requires
        0 <= from,
    ensures
        division_index(divs, id, from) matches Some(k) ==> from <= k < divs.len(),
    decreases divs.len() - from,
{
    if from < divs.len() && divs[from].id@ != id {
        lemma_division_index(divs, id, from + 1);
    }
}

proof fn lemma_division_found(divs: Seq<Division>, id: Seq<char>, from: int, j: int)
    requires
        0 <= from <= j < divs.len(),
        divs[j].id@ == id,
    ensures
        division_index(divs, id, from) is Some,
    decreases j - from,
{
    if divs[from].id@ != id {
        lemma_division_found(divs, id, from + 1, j);
    }
}

/// The picture of a player's profile.
pub open spec fn image_of(q: QueryPlayer) -> Option<Seq<char>> {
    match q.user.profile {
        Some(p) => crate::text::opt_view(p.profile_image_url),
        None => None,
    }
}

/// Where a player's picture is kept on the vMix machine.
pub open spec fn image_path(id: Seq<char>, windows: bool) -> Seq<char> {
    if windows {
        "C:\\livegrafik-flipup\\_conf\\images\\"@ + id + ".png"@
    } else {
        "images/"@ + id + ".png"@
    }
}

/// Whether every reported hole is on the layout with throws that fit.
pub open spec fn reports_fit(results: Seq<tjing::HoleResult>, holes: Seq<crate::hole::Hole>) -> bool {
    forall|i: int| 0 <= i < results.len() ==> ((#[trigger] find_hole_spec(holes, results[i].hole_number as u8)) matches Some(h)
        && i8::MIN <= (results[i].score as i8) + (h.par as i8) <= i8::MAX)
}

/// The results of reported holes.
pub open spec fn reported_results(results: Seq<tjing::HoleResult>, holes: Seq<crate::hole::Hole>) -> Seq<HoleResult> {
    results.map_values(|t: tjing::HoleResult| crate::round::reported(t, find_hole_spec(holes, t.hole_number as u8)->0))
}

/// Whether `p` is the player `q` as read with the reported results `reports`,
/// the layout `holes`, the divisions `divisions` (where `q`'s division is
/// listed) and the round, starting hole, event and broadcast given, its group
/// index aside: the letters of its names, its picture and where it is kept,
/// its PDGA number, whether it did not start or finish, the listed division of
/// its id, its reported results ordered by hole, and no score counted yet.
pub open spec fn read_player(
    q: QueryPlayer,
    reports: Seq<tjing::HoleResult>,
    holes: Seq<crate::hole::Hole>,
    divisions: Seq<Division>,
    round: usize,
    starts_at_hole: u8,
    event_number: usize,
    broadcast_type: BroadcastType,
    windows: bool,
    p: Player,
) -> bool {
    let k = division_index(divisions, q.division.id@, 0)->0;
    &&& p.player_id@ == q.id@
    &&& p.first_name@ == letters(q.user.first_name->0@)
    &&& p.surname@ == letters(q.user.last_name->0@)
    &&& p.name@ == p.first_name@ + " "@ + p.surname@
    &&& crate::text::opt_view(p.image_url) == image_of(q)
    &&& p.pdga_num == match q.user.profile {
        Some(prof) => prof.pdga_number,
        None => None,
    }
    &&& crate::text::opt_view(p.image_location) == match image_of(q) {
        Some(_) => Some(image_path(q.id@, windows)),
        None => None,
    }
    &&& p.dnf == (q.dnf.is_dnf || q.dns.is_dns)
    &&& p.dns == q.dns.is_dns
    &&& p.round_ind == round
    &&& p.division.id@ == divisions[k].id@
    &&& p.division.name@ == divisions[k].name@
    &&& p.division.short_name@ == divisions[k].short_name@
    &&& p.rs() == stable_sorted(reported_results(reports, holes))
    &&& p.results.round == round
    &&& p.results.start_at_hole == starts_at_hole
    &&& p.holes.holes@ == holes
    &&& p.event_number == event_number
    &&& p.broadcast_type == broadcast_type
    &&& p.total_score == 0 && p.round_score == 0 && p.hole_shown_up_until == 0 && p.throws == 0
    &&& p.position == 0 && p.rank == RankUpDown::Same
}

/// A player read from the scoring service (see `read_player`), in group place
/// 0; an error where its division is not among those given.
pub fn from_query(
    player: QueryPlayer,
    player_results: Vec<tjing::HoleResult>,
    round: usize,
    holes: Holes,
    divisions: Vec<Division>,
    starts_at_hole: u8,
    event_number: usize,
    broadcast_type: BroadcastType,
    windows: bool,
) -> (r: Result<Player, Error>)
    requires
        player.user.first_name is Some,
        player.user.last_name is Some,
        division_index(divisions@, player.division.id@, 0) is Some ==> reports_fit(player_results@, holes.holes@),
    ensures
        match division_index(divisions@, player.division.id@, 0) {
            None => r matches Err(Error::UnableToParse),
            Some(_) => r matches Ok(p) && read_player(
                player,
                player_results@,
                holes.holes@,
                divisions@,
                round,
                starts_at_hole,
                event_number,
                broadcast_type,
                windows,
                p,
            ) && p.holes == holes && p.group_index == 0,
        },
{
    let first_name = match &player.user.first_name {
        Some(f) => retain_alphabetic(f.as_str()),
        None => String::new(),
    };
    let surname = match &player.user.last_name {
        Some(l) => retain_alphabetic(l.as_str()),
        None => String::new(),
    };
    let image_id: Option<String> = match &player.user.profile {
        Some(p) => crate::text::clone_opt(&p.profile_image_url),
        None => None,
    };
    let pdga_num = match &player.user.profile {
        Some(p) => p.pdga_number,
        None => None,
    };
    proof {
        lemma_division_index(divisions@, player.division.id@, 0);
    }
    let mut found: Option<usize> = None;
    let mut i: usize = 0;
    while i < divisions.len()
        invariant_except_break
            i <= divisions@.len(),
            found is None,
            division_index(divisions@, player.division.id@, 0) == division_index(divisions@, player.division.id@, i as int),
        ensures
            match division_index(divisions@, player.division.id@, 0) {
                Some(k) => found matches Some(f) && f as int == k && f < divisions@.len(),
                None => found is None,
            },
        decreases divisions@.len() - i,
    {
        if str_eq(divisions[i].id.as_str(), player.division.id.as_str()) {
            found = Some(i);
            break;
        }
        i = i + 1;
    }
    let division = match found {
        Some(k) => divisions[k].duplicate(),
        None => return Err(Error::UnableToParse),
    };
    let mut results: Vec<HoleResult> = Vec::new();
    let mut j: usize = 0;
    while j < player_results.len()
        invariant
            j <= player_results@.len(),
            reports_fit(player_results@, holes.holes@),
            results@ =~= reported_results(player_results@.take(j as int), holes.holes@),
        decreases player_results@.len() - j,
    {
        let t = player_results[j];
        proof {
            assert(find_hole_spec(holes.holes@, player_results@[j as int].hole_number as u8) is Some);
        }
        let number = #[verifier::truncate] (t.hole_number as u8);
        match HoleResult::from_tjing(number, &holes, t) {
            Some(r) => results.push(r),
            None => {},
        }
        proof {
            assert(player_results@.take(j + 1) =~= player_results@.take(j as int).push(t));
        }
        j = j + 1;
    }
    proof {
        assert(player_results@.take(player_results@.len() as int) =~= player_results@);
    }
    let results = PlayerRound::new(results, round, starts_at_hole);
    let image_location = match &image_id {
        Some(_) => {
            if windows {
                let mut s = join2("C:\\livegrafik-flipup\\_conf\\images\\", player.id.as_str());
                s.append(".png");
                Some(s)
            } else {
                let mut s = join2("images/", player.id.as_str());
                s.append(".png");
                Some(s)
            }
        },
        None => None,
    };
    let mut name = first_name.clone();
    name.append(" ");
    name.append(surname.as_str());
    let mut p = Player::null_player();
    p.player_id = player.id;
    p.image_url = image_id;
    p.pdga_num = pdga_num;
    p.results = results;
    p.first_name = first_name;
    p.surname = surname;
    p.name = name;
    p.dnf = player.dnf.is_dnf || player.dns.is_dns;
    p.dns = player.dns.is_dns;
    p.round_ind = round;
    p.division = division;
    p.image_location = image_location;
    p.holes = holes;
    p.event_number = event_number;
    p.broadcast_type = broadcast_type;
    Ok(p)
}

/// The amateur divisions: their full names in lower case and the short names
/// they are shown with, in the order they are listed.
pub open spec fn division_table() -> Seq<(Seq<char>, Seq<char>)> {
    seq![
        ("women's amateur 1"@, "FA1"@),
        ("women's amateur 2"@, "FA2"@),
        ("women's amateur 3"@, "FA3"@),
        ("women's amateur 4"@, "FA4"@),
        ("mixed amateur 1"@, "MA1"@),
        ("mixed amateur 2"@, "MA2"@),
        ("mixed amateur 3"@, "MA3"@),
        ("mixed amateur 4"@, "MA4"@),
        ("mixed amateur 40+"@, "MA40"@),
        ("mixed amateur 50+"@, "MA50"@),
    ]
}

/// The index of the first entry of the table whose `side` (0: full name,
/// 1: short name) is the text.
pub open spec fn table_index(text: Seq<char>, side: int, from: int) -> Option<int>
    decreases 10 - from,
{
    if from < 0 || from >= 10 {
        None
    } else if (if side == 0 { division_table()[from].0 } else { division_table()[from].1 }) == text {
        Some(from)
    } else {
        table_index(text, side, from + 1)
    }
}

/// The name a division is shown with: the short name of an amateur division,
/// else the name itself.
pub open spec fn shown_division_name(name: Seq<char>) -> Seq<char> {
    match table_index(lowercase(name), 0, 0) {
        Some(k) => division_table()[k].1,
        None => name,
    }
}

/// The place of a division in the listing: that of its short name in the
/// table, 0 for the others.
pub open spec fn division_rank(name: Seq<char>) -> usize {
    match table_index(name, 1, 0) {
        Some(k) => k as usize,
        None => 0,
    }
}

fn table_entry(k: usize) -> (r: (&'static str, &'static str))
    requires
        k < 10,
    ensures
        r.0@ == division_table()[k as int].0,
        r.1@ == division_table()[k as int].1,
{
    if k == 0 {
        ("women's amateur 1", "FA1")
    } else if k == 1 {
        ("women's amateur 2", "FA2")
    } else if k == 2 {
        ("women's amateur 3", "FA3")
    } else if k == 3 {
        ("women's amateur 4", "FA4")
    } else if k == 4 {
        ("mixed amateur 1", "MA1")
    } else if k == 5 {
        ("mixed amateur 2", "MA2")
    } else if k == 6 {
        ("mixed amateur 3", "MA3")
    } else if k == 7 {
        ("mixed amateur 4", "MA4")
    } else if k == 8 {
        ("mixed amateur 40+", "MA40")
    } else {
        ("mixed amateur 50+", "MA50")
    }
}

fn find_in_table(text: &str, side: usize) -> (r: Option<usize>)
    requires
        side <= 1,
    ensures
        match table_index(text@, side as int, 0) {
            Some(k) => r == Some(k as usize) && 0 <= k < 10,
            None => r is None,
        },
{
    let mut k: usize = 0;
    while k < 10
        invariant
            k <= 10,
            side <= 1,
            table_index(text@, side as int, 0) == table_index(text@, side as int, k as int),
        decreases 10 - k,
    {
        let (full, short) = table_entry(k);
        let entry = if side == 0 { full } else { short };
        if str_eq(entry, text) {
            return Some(k);
        }
        k = k + 1;
    }
    None
}

/// The name a division is shown with (see `shown_division_name`).
pub fn convert_division_name(name: &str) -> (r: String)
    ensures
        r@ == shown_division_name(name@),
{
    let lower = to_lowercase(name);
    match find_in_table(lower.as_str(), 0) {
        Some(k) => String::from_str(table_entry(k).1),
        None => String::from_str(name),
    }
}

/// The place of a division in the listing (see `division_rank`).
pub fn rank_of_division(name: &str) -> (r: usize)
    ensures
        r == division_rank(name@),
{
    match find_in_table(name, 1) {
        Some(k) => k,
        None => 0,
    }
}

/// A division's place in the listing and its index in the list read.
#[derive(Clone, Copy, Debug)]
pub struct RankedIndex {
    pub rank: usize,
    pub index: usize,
}

impl crate::sort::SortKey for RankedIndex {
    open spec fn le_spec(&self, other: &Self) -> bool {
        self.rank <= other.rank
    }

    proof fn lemma_le_total(a: &Self, b: &Self) {
    }

    proof fn lemma_le_transitive(a: &Self, b: &Self, c: &Self) {
    }

    fn le(&self, other: &Self) -> (r: bool) {
        self.rank <= other.rank
    }
}

/// A division as id, shown name and short name.
pub open spec fn division_view(d: Division) -> (Seq<char>, Seq<char>, Seq<char>) {
    (d.id@, d.name@, d.short_name@)
}

/// The divisions read, renamed, each with its place in the listing.
pub open spec fn ranked(divs: Seq<Division>) -> Seq<RankedIndex> {
    Seq::new(divs.len(), |i: int| RankedIndex { rank: division_rank(shown_division_name(divs[i].name@)), index: i as usize })
}

/// Divisions with repeats of a name next to each other dropped.
pub open spec fn dedup_names(s: Seq<(Seq<char>, Seq<char>, Seq<char>)>) -> Seq<(Seq<char>, Seq<char>, Seq<char>)>
    decreases s.len(),
{
    if s.len() == 0 {
        seq![]
    } else {
        let rest = dedup_names(s.drop_last());
        if s.len() > 1 && s[s.len() - 2].1 == s.last().1 {
            rest
        } else {
            rest.push(s.last())
        }
    }
}

/// The divisions of an event as listed: renamed, ordered by their place in the
/// table (stably), each name once where repeats follow each other.
pub open spec fn listed_divisions(divs: Seq<Division>) -> Seq<(Seq<char>, Seq<char>, Seq<char>)> {
    dedup_names(stable_sorted(ranked(divs)).map_values(|r: RankedIndex| (
        divs[r.index as int].id@,
        shown_division_name(divs[r.index as int].name@),
        divs[r.index as int].short_name@,
    )))
}

/// Lists the divisions of an event (see `listed_divisions`).
pub fn order_divisions(divs: Vec<Division>) -> (r: Vec<Division>)
    ensures
        r@.map_values(|d: Division| division_view(d)) == listed_divisions(divs@),
{
    let mut keys: Vec<RankedIndex> = Vec::new();
    let mut names: Vec<String> = Vec::new();
    let mut i: usize = 0;
    while i < divs.len()
        invariant
            i <= divs@.len(),
            keys@ =~= ranked(divs@).take(i as int),
            names@.len() == i,
            forall|j: int| 0 <= j < i ==> (#[trigger] names@[j])@ == shown_division_name(divs@[j].name@),
        decreases divs@.len() - i,
    {
        let name = convert_division_name(divs[i].name.as_str());
        let rank = rank_of_division(name.as_str());
        keys.push(RankedIndex { rank, index: i });
        names.push(name);
        i = i + 1;
    }
    proof {
        assert(ranked(divs@).take(divs@.len() as int) =~= ranked(divs@));
        crate::sort::lemma_stable_sorted(ranked(divs@));
    }
    let sorted = crate::sort::sorted_by_order(keys);
    let ghost views = sorted@.map_values(|r: RankedIndex| (
        divs@[r.index as int].id@,
        shown_division_name(divs@[r.index as int].name@),
        divs@[r.index as int].short_name@,
    ));
    let mut out: Vec<Division> = Vec::new();
    let mut k: usize = 0;
    while k < sorted.len()
        invariant
            k <= sorted@.len(),
            sorted@ == stable_sorted(ranked(divs@)),
            sorted@.to_multiset() =~= ranked(divs@).to_multiset(),
            names@.len() == divs@.len(),
            forall|j: int| 0 <= j < divs@.len() ==> (#[trigger] names@[j])@ == shown_division_name(divs@[j].name@),
            views == sorted@.map_values(|r: RankedIndex| (
                divs@[r.index as int].id@,
                shown_division_name(divs@[r.index as int].name@),
                divs@[r.index as int].short_name@,
            )),
            out@.map_values(|d: Division| division_view(d)) =~= dedup_names(views.take(k as int)),
            k > 0 ==> out@.len() > 0 && division_view(out@.last()) == views[k - 1] || (out@.len() > 0 && out@.last().name@ == views[k - 1].1),
        decreases sorted@.len() - k,
    {
        let r = sorted[k];
        proof {
            sorted@.to_multiset_ensures();
            ranked(divs@).to_multiset_ensures();
            assert(sorted@.contains(r));
            assert(ranked(divs@).to_multiset().count(r) > 0);
            assert(ranked(divs@).contains(r));
            let j = choose|j: int| 0 <= j < ranked(divs@).len() && ranked(divs@)[j] == r;
            assert(r.index as int == j);
            assert(views.take(k + 1).drop_last() =~= views.take(k as int));
            assert(views.take(k + 1).last() == views[k as int]);
        }
        let repeat = k > 0 && str_eq(out[out.len() - 1].name.as_str(), names[r.index].as_str());
        let ghost before = out@.map_values(|d: Division| division_view(d));
        if !repeat {
            let d = &divs[r.index];
            out.push(Division { id: d.id.clone(), name: names[r.index].clone(), short_name: d.short_name.clone() });
            proof {
                assert(out@.map_values(|d: Division| division_view(d)) =~= before.push(views[k as int]));
            }
        }
        proof {
            let t = views.take(k + 1);
            assert(repeat == (t.len() > 1 && t[t.len() - 2].1 == t.last().1));
        }
        k = k + 1;
    }
    proof {
        assert(views.take(sorted@.len() as int) =~= views);
    }
    out
}

/// The index of the first group that lists the player.
pub open spec fn group_of(groups: Seq<Group>, id: Seq<char>) -> Option<int> {
    first_group_with(groups, id, 0)
}

pub open spec fn first_group_with(groups: Seq<Group>, id: Seq<char>, from: int) -> Option<int>
    decreases groups.len() - from,
{
    if from < 0 || from >= groups.len() {
        None
    } else if player_ids_of(groups[from]).contains(id) {
        Some(from)
    } else {
        first_group_with(groups, id, from + 1)
    }
}

proof fn lemma_first_group_with(groups: Seq<Group>, id: Seq<char>, from: int)
    requires
        0 <= from,
    ensures
        first_group_with(groups, id, from) matches Some(k) ==> from <= k < groups.len(),
    decreases groups.len() - from,
{
    if from < groups.len() && !player_ids_of(groups[from]).contains(id) {
        lemma_first_group_with(groups, id, from + 1);
    }
}

fn find_group(groups: &Vec<Group>, id: &str) -> (r: Option<usize>)
    ensures
        match group_of(groups@, id@) {
            Some(k) => r matches Some(i) && i as int == k && i < groups@.len(),
            None => r is None,
        },
{
    proof {
        lemma_first_group_with(groups@, id@, 0);
    }
    let mut i: usize = 0;
    while i < groups.len()
        invariant
            i <= groups@.len(),
            first_group_with(groups@, id@, 0) == first_group_with(groups@, id@, i as int),
        decreases groups@.len() - i,
    {
        let ids = groups[i].player_ids();
        if crate::queue::contains_id(&ids, id) {
            return Some(i);
        }
        i = i + 1;
    }
    None
}

/// The players of a round who are on a group of the round, in order.
pub open spec fn on_course(players: Seq<QueryPlayer>, groups: Seq<Group>) -> Seq<QueryPlayer> {
    players.filter(|q: QueryPlayer| group_of(groups, q.id@) is Some)
}

/// The holes of the layout a group plays.
pub open spec fn holes_of(holes: Seq<(Seq<char>, Holes)>, group_id: Seq<char>) -> Option<Holes> {
    match entry_index(holes, group_id, 0) {
        Some(k) => Some(holes[k].1),
        None => None,
    }
}

/// Whether each player of a round on a group can be read: with names, known
/// results on the layout of their group, and a known division.
pub open spec fn round_ready(
    players: Seq<QueryPlayer>,
    groups: Seq<Group>,
    results: Seq<(Seq<char>, Seq<tjing::HoleResult>)>,
    holes: Seq<(Seq<char>, Holes)>,
    division_ids: Seq<Seq<char>>,
) -> bool {
    forall|i: int| 0 <= i < players.len() && group_of(groups, #[trigger] players[i].id@) is Some ==> {
        let g = groups[group_of(groups, players[i].id@)->0];
        &&& players[i].user.first_name is Some
        &&& players[i].user.last_name is Some
        &&& holes_of(holes, g.id@) is Some
        &&& entry_index(results, players[i].id@, 0) is Some
        &&& reports_fit(results[entry_index(results, players[i].id@, 0)->0].1, holes_of(holes, g.id@)->0.holes@)
        &&& division_ids.contains(players[i].division.id@)
    }
}

impl Holes {
    /// A copy of the holes.
    pub fn duplicate(&self) -> (r: Self)
        ensures
            r.holes@ == self.holes@,
    {
        let mut out: Vec<crate::hole::Hole> = Vec::new();
        let mut i: usize = 0;
        while i < self.holes.len()
            invariant
                i <= self.holes@.len(),
                out@ =~= self.holes@.take(i as int),
            decreases self.holes@.len() - i,
        {
            out.push(self.holes[i]);
            i = i + 1;
        }
        proof {
            assert(self.holes@.take(self.holes@.len() as int) =~= self.holes@);
        }
        Holes { holes: out }
    }
}

pub fn duplicate_divisions(divs: &Vec<Division>) -> (r: Vec<Division>)
    ensures
        r@.map_values(|d: Division| division_view(d)) == divs@.map_values(|d: Division| division_view(d)),
        r@.len() == divs@.len(),
        forall|i: int| 0 <= i < divs@.len() ==> division_view(#[trigger] r@[i]) == division_view(divs@[i]),
{
    let mut out: Vec<Division> = Vec::new();
    let mut i: usize = 0;
    while i < divs.len()
        invariant
            i <= divs@.len(),
            out@.len() == i,
            forall|j: int| 0 <= j < i ==> division_view(#[trigger] out@[j]) == division_view(divs@[j]),
        decreases divs@.len() - i,
    {
        out.push(divs[i].duplicate());
        i = i + 1;
    }
    assert(out@.map_values(|d: Division| division_view(d)) =~= divs@.map_values(|d: Division| division_view(d)));
    out
}

pub proof fn lemma_division_index_views(a: Seq<Division>, b: Seq<Division>, id: Seq<char>, from: int)
    requires
        a.len() == b.len(),
        forall|i: int| 0 <= i < a.len() ==> division_view(#[trigger] a[i]) == division_view(b[i]),
        0 <= from,
    ensures
        division_index(a, id, from) == division_index(b, id, from),
    decreases a.len() - from,
{
    if from < a.len() {
        assert(division_view(a[from]) == division_view(b[from]));
        lemma_division_index_views(a, b, id, from + 1);
    }
}

/// Whether `p` is the player `q` of a round read as `round_players` reads it
/// (see `read_player`): with the results reported for its id, the layout and
/// starting hole of the first group that lists it, and the divisions given.
pub open spec fn read_in_round(
    q: QueryPlayer,
    groups: Seq<Group>,
    results: Seq<(Seq<char>, Seq<tjing::HoleResult>)>,
    holes: Seq<(Seq<char>, Holes)>,
    divisions: Seq<Division>,
    round: usize,
    event_number: usize,
    broadcast_type: BroadcastType,
    windows: bool,
    p: Player,
) -> bool {
    let g = groups[group_of(groups, q.id@)->0];
    read_player(
        q,
        results[entry_index(results, q.id@, 0)->0].1,
        holes_of(holes, g.id@)->0.holes@,
        divisions,
        round,
        g.start_at_hole,
        event_number,
        broadcast_type,
        windows,
        p,
    )
}

/// Reads the players of one round of one event: those on a group of the round,
/// with their division shown by its listed name, the layout and starting hole
/// of their group and their reported results.
pub fn round_players(
    players: Vec<QueryPlayer>,
    groups: &Vec<Group>,
    results: &PlayerResults,
    holes: &Vec<(String, Holes)>,
    divisions: &Vec<Division>,
    round: usize,
    event_number: usize,
    broadcast_type: BroadcastType,
    windows: bool,
) -> (r: Vec<Player>)
    requires
        round_ready(players@, groups@, results.view_entries(), holes@.map_values(|e: (String, Holes)| (e.0@, e.1)), divisions@.map_values(|d: Division| d.id@)),
    ensures
        r@.len() == on_course(players@, groups@).len(),
        r@.map_values(|p: Player| p.player_id@) == on_course(players@, groups@).map_values(|q: QueryPlayer| q.id@),
        forall|i: int| 0 <= i < r@.len() ==> (#[trigger] r@[i]).round_ind == round && r@[i].event_number == event_number
            && r@[i].results.start_at_hole == groups@[group_of(groups@, r@[i].player_id@)->0].start_at_hole
            && r@[i].results.round == round && r@[i].group_index == 0,
        forall|i: int| 0 <= i < r@.len() ==> read_in_round(
            on_course(players@, groups@)[i],
            groups@,
            results.view_entries(),
            holes@.map_values(|e: (String, Holes)| (e.0@, e.1)),
            divisions@,
            round,
            event_number,
            broadcast_type,
            windows,
            #[trigger] r@[i],
        ),
{
    let ghost hv = holes@.map_values(|e: (String, Holes)| (e.0@, e.1));
    let ghost pred = |q: QueryPlayer| group_of(groups@, q.id@) is Some;
    let mut players = players;
    let ghost all = players@;
    let n = players.len();
    let mut out: Vec<Player> = Vec::new();
    let mut i: usize = 0;
    while i < n
        invariant
            i <= n,
            n == all.len(),
            players@ =~= all.subrange(i as int, n as int),
            pred == (|q: QueryPlayer| group_of(groups@, q.id@) is Some),
            hv == holes@.map_values(|e: (String, Holes)| (e.0@, e.1)),
            round_ready(all, groups@, results.view_entries(), hv, divisions@.map_values(|d: Division| d.id@)),
            out@.map_values(|p: Player| p.player_id@) =~= all.take(i as int).filter(pred).map_values(|q: QueryPlayer| q.id@),
            forall|k: int| 0 <= k < out@.len() ==> (#[trigger] out@[k]).round_ind == round && out@[k].event_number == event_number
                && out@[k].results.start_at_hole == groups@[group_of(groups@, out@[k].player_id@)->0].start_at_hole
                && out@[k].results.round == round && out@[k].group_index == 0,
            out@.len() == all.take(i as int).filter(pred).len(),
            forall|k: int| 0 <= k < out@.len() ==> read_in_round(
                all.take(i as int).filter(pred)[k],
                groups@,
                results.view_entries(),
                hv,
                divisions@,
                round,
                event_number,
                broadcast_type,
                windows,
                #[trigger] out@[k],
            ),
        decreases n - i,
    {
        let q = players.remove(0);
        assert(q == all[i as int]);
        proof {
            assert(all.take(i + 1) =~= all.take(i as int).push(q));
            all.take(i as int).lemma_filter_push(q, pred);
        }
        let ghost before = out@.map_values(|p: Player| p.player_id@);
        match find_group(groups, q.id.as_str()) {
            Some(g) => {
                let group = &groups[g];
                let hole_index = find_holes(holes, group.id.as_str());
                let results_index = crate::results::find_results(&results.players, q.id.as_str());
                match (hole_index, results_index) {
                    (Some(h), Some(k)) => {
                        let layout = holes[h].1.duplicate();
                        let mut reports: Vec<tjing::HoleResult> = Vec::new();
                        let list = &results.players[k].1;
                        let mut j: usize = 0;
                        while j < list.len()
                            invariant
                                j <= list@.len(),
                                reports@ =~= list@.take(j as int),
                            decreases list@.len() - j,
                        {
                            reports.push(list[j]);
                            j = j + 1;
                        }
                        proof {
                            assert(list@.take(list@.len() as int) =~= list@);
                        }
                        let divs = duplicate_divisions(divisions);
                        proof {
                            lemma_division_index_views(divs@, divisions@, q.division.id@, 0);
                            let ids = divisions@.map_values(|d: Division| d.id@);
                            assert(ids.contains(q.division.id@));
                            let j = choose|j: int| 0 <= j < ids.len() && ids[j] == q.division.id@;
                            lemma_division_found(divisions@, q.division.id@, 0, j);
                        }
                        let qid = q.id.clone();
                        let made = from_query(q, reports, round, layout, divs, group.start_at_hole, event_number, broadcast_type, windows);
                        match made {
                            Ok(p) => {
                                let ghost old_out = out@;
                                out.push(p);
                                proof {
                                    assert(out@.map_values(|p: Player| p.player_id@) =~= before.push(qid@));
                                    let f = all.take(i + 1).filter(pred);
                                    assert(f == all.take(i as int).filter(pred).push(q));
                                    assert(hv[h as int] == (holes@[h as int].0@, holes@[h as int].1));
                                    assert(results.view_entries()[k as int] == (results.players@[k as int].0@, results.players@[k as int].1@));
                                    assert forall|x: int| 0 <= x < out@.len() implies read_in_round(
                                        f[x],
                                        groups@,
                                        results.view_entries(),
                                        hv,
                                        divisions@,
                                        round,
                                        event_number,
                                        broadcast_type,
                                        windows,
                                        #[trigger] out@[x],
                                    ) by {
                                        if x < old_out.len() {
                                            assert(out@[x] == old_out[x]);
                                            assert(f[x] == all.take(i as int).filter(pred)[x]);
                                        } else {
                                            assert(f[x] == q);
                                            assert(out@[x] == p);
                                            let rv = results.view_entries();
                                            assert(group_of(groups@, q.id@) == Some(g as int));
                                            assert(entry_index(rv, q.id@, 0) == Some(k as int));
                                            assert(rv[k as int].1 == reports@);
                                            assert(holes_of(hv, groups@[g as int].id@) == Some(holes@[h as int].1));
                                            assert(division_index(divs@, q.division.id@, 0) == division_index(divisions@, q.division.id@, 0));
                                            lemma_division_index(divisions@, q.division.id@, 0);
                                            let dk = division_index(divisions@, q.division.id@, 0)->0;
                                            assert(division_view(divs@[dk]) == division_view(divisions@[dk]));
                                        }
                                    }
                                }
                            },
                            Err(_) => {},
                        }
                    },
                    _ => {},
                }
            },
            None => {},
        }
        i = i + 1;
    }
    proof {
        assert(all.take(n as int) =~= all);
    }
    out
}

fn find_holes(holes: &Vec<(String, Holes)>, id: &str) -> (r: Option<usize>)
    ensures
        match entry_index(holes@.map_values(|e: (String, Holes)| (e.0@, e.1)), id@, 0) {
            Some(k) => r matches Some(i) && i as int == k && i < holes@.len(),
            None => r is None,
        },
{
    let ghost v = holes@.map_values(|e: (String, Holes)| (e.0@, e.1));
    proof {
        crate::results::lemma_entry_index(v, id@, 0);
    }
    let mut i: usize = 0;
    while i < holes.len()
        invariant
            i <= holes@.len(),
            v == holes@.map_values(|e: (String, Holes)| (e.0@, e.1)),
            entry_index(v, id@, 0) == entry_index(v, id@, i as int),
        decreases holes@.len() - i,
    {
        if str_eq(holes[i].0.as_str(), id) {
            return Some(i);
        }
        i = i + 1;
    }
    None
}

/// The ids of the named players of a group, in order.
pub open spec fn named_ids(g: Group) -> Seq<Seq<char>> {
    g.players@.filter(named_pred()).map_values(|p: crate::dto::Player| p.id@)
}

/// Whether a listed player has a name.
pub open spec fn named_pred() -> spec_fn(crate::dto::Player) -> bool {
    |p: crate::dto::Player| p.name@.len() > 0
}

/// The first index of an id in a list.
pub open spec fn index_in(s: Seq<Seq<char>>, id: Seq<char>, from: int) -> Option<int>
    decreases s.len() - from,
{
    if from < 0 || from >= s.len() {
        None
    } else if s[from] == id {
        Some(from)
    } else {
        index_in(s, id, from + 1)
    }
}

/// A player's place among the named players of the first group that names
/// them.
pub open spec fn group_index_of(groups: Seq<Group>, id: Seq<char>, from: int) -> Option<int>
    decreases groups.len() - from,
{
    if from < 0 || from >= groups.len() {
        None
    } else {
        match index_in(named_ids(groups[from]), id, 0) {
            Some(k) => Some(k),
            None => group_index_of(groups, id, from + 1),
        }
    }
}

fn named_place(g: &Group, id: &str) -> (r: Option<usize>)
    ensures
        match index_in(named_ids(*g), id@, 0) {
            Some(k) => r == Some(k as usize) && 0 <= k,
            None => r is None,
        },
{
    let ghost pred = named_pred();
    let mut count: usize = 0;
    let mut i: usize = 0;
    while i < g.players.len()
        invariant
            i <= g.players@.len(),
            pred == named_pred(),
            count == g.players@.take(i as int).filter(pred).len(),
            count <= i,
            index_in(named_ids(*g), id@, 0) == index_in(named_ids(*g), id@, count as int),
            g.players@.take(i as int).filter(pred).map_values(|p: crate::dto::Player| p.id@)
                =~= named_ids(*g).take(count as int),
        decreases g.players@.len() - i,
    {
        proof {
            assert(g.players@.take(i + 1) =~= g.players@.take(i as int).push(g.players@[i as int]));
            g.players@.take(i as int).lemma_filter_push(g.players@[i as int], pred);
            crate::standings::lemma_filter_prefix(g.players@, pred, i + 1);
        }
        let named = g.players[i].name.unicode_len() > 0;
        if named {
            proof {
                let f = g.players@.filter(pred);
                let b = g.players@.take(i + 1).filter(pred);
                assert(b[count as int] == g.players@[i as int]);
                assert(b =~= f.take(b.len() as int));
                assert(f[count as int] == g.players@[i as int]);
                assert(named_ids(*g)[count as int] == g.players@[i as int].id@);
            }
            if str_eq(g.players[i].id.as_str(), id) {
                return Some(count);
            }
            count = count + 1;
        }
        i = i + 1;
    }
    proof {
        assert(g.players@.take(g.players@.len() as int) =~= g.players@);
    }
    None
}

/// Gives each player their place in the first group that names them; players
/// no group names keep theirs.
pub fn assign_group_indexes(players: &mut Vec<Player>, groups: &Vec<Group>)
    ensures
        final(players)@.len() == old(players)@.len(),
        forall|i: int| 0 <= i < old(players)@.len() ==> #[trigger] final(players)@[i]
            == assigned_group(old(players)@[i], groups@),
{
    let n = players.len();
    let mut i: usize = 0;
    while i < n
        invariant
            i <= n,
            n == old(players)@.len(),
            players@.len() == n,
            forall|j: int| i <= j < n ==> #[trigger] players@[j] == old(players)@[j],
            forall|j: int| 0 <= j < i ==> #[trigger] players@[j] == assigned_group(old(players)@[j], groups@),
        decreases n - i,
    {
        let mut found: Option<usize> = None;
        let mut g: usize = 0;
        while g < groups.len()
            invariant_except_break
                g <= groups@.len(),
                found is None,
                i < n,
                n == players@.len(),
                group_index_of(groups@, players@[i as int].player_id@, 0) == group_index_of(groups@, players@[i as int].player_id@, g as int),
            ensures
                i < n,
                n == players@.len(),
                match group_index_of(groups@, players@[i as int].player_id@, 0) {
                    Some(k) => found == Some(k as usize),
                    None => found is None,
                },
            decreases groups@.len() - g,
        {
            match named_place(&groups[g], players[i].player_id.as_str()) {
                Some(k) => {
                    found = Some(k);
                    break;
                },
                None => {},
            }
            g = g + 1;
        }
        let ghost before = players@;
        match found {
            Some(k) => {
                let mut p = players.remove(i);
                assert(p == before[i as int]);
                p.group_index = k;
                players.insert(i, p);
                proof {
                    assert(players@ =~= before.update(i as int, p));
                }
            },
            None => {},
        }
        i = i + 1;
    }
}

/// The player with the group index of the first listed group that names it, or unchanged where
/// none does.
pub open spec fn assigned_group(p: Player, groups: Seq<Group>) -> Player {
    match group_index_of(groups, p.player_id@, 0) {
        Some(k) => Player { group_index: k as usize, ..p },
        None => p,
    }
}


/// Whether every reported hole is on the layout with throws that fit (see
/// `reports_fit`).
pub fn reports_fit_check(results: &Vec<tjing::HoleResult>, holes: &Holes) -> (r: bool)
    ensures
        r == reports_fit(results@, holes.holes@),
{
    let mut i: usize = 0;
    while i < results.len()
        invariant
            i <= results@.len(),
            forall|k: int| 0 <= k < i ==> ((#[trigger] find_hole_spec(holes.holes@, results@[k].hole_number as u8)) matches Some(h)
                && i8::MIN <= (results@[k].score as i8) + (h.par as i8) <= i8::MAX),
        decreases results@.len() - i,
    {
        let t = results[i];
        match holes.find_hole(t.hole_number as u8) {
            Some(h) => {
                let sum: i16 = (t.score as i8) as i16 + (h.par as i8) as i16;
                if sum < -128 || sum > 127 {
                    return false;
                }
            },
            None => {
                return false;
            },
        }
        i = i + 1;
    }
    true
}

fn division_listed(divisions: &Vec<Division>, id: &str) -> (r: bool)
    ensures
        r == divisions@.map_values(|d: Division| d.id@).contains(id@),
{
    let ghost ids = divisions@.map_values(|d: Division| d.id@);
    let mut i: usize = 0;
    while i < divisions.len()
        invariant
            i <= divisions@.len(),
            ids == divisions@.map_values(|d: Division| d.id@),
            forall|k: int| 0 <= k < i ==> ids[k] != id@,
        decreases divisions@.len() - i,
    {
        if str_eq(divisions[i].id.as_str(), id) {
            assert(ids[i as int] == id@);
            return true;
        }
        i = i + 1;
    }
    false
}

/// Whether each player of a round on a group can be read (see `round_ready`).
pub fn round_is_ready(
    players: &Vec<QueryPlayer>,
    groups: &Vec<Group>,
    results: &PlayerResults,
    holes: &Vec<(String, Holes)>,
    divisions: &Vec<Division>,
) -> (r: bool)
    ensures
        r == round_ready(players@, groups@, results.view_entries(), holes@.map_values(|e: (String, Holes)| (e.0@, e.1)), divisions@.map_values(|d: Division| d.id@)),
{
    let ghost hv = holes@.map_values(|e: (String, Holes)| (e.0@, e.1));
    let ghost rv = results.view_entries();
    let ghost ids = divisions@.map_values(|d: Division| d.id@);
    let mut i: usize = 0;
    while i < players.len()
        invariant
            i <= players@.len(),
            hv == holes@.map_values(|e: (String, Holes)| (e.0@, e.1)),
            rv == results.view_entries(),
            ids == divisions@.map_values(|d: Division| d.id@),
            forall|k: int| 0 <= k < i && group_of(groups@, #[trigger] players@[k].id@) is Some ==> {
                let g = groups@[group_of(groups@, players@[k].id@)->0];
                &&& players@[k].user.first_name is Some
                &&& players@[k].user.last_name is Some
                &&& holes_of(hv, g.id@) is Some
                &&& entry_index(rv, players@[k].id@, 0) is Some
                &&& reports_fit(rv[entry_index(rv, players@[k].id@, 0)->0].1, holes_of(hv, g.id@)->0.holes@)
                &&& ids.contains(players@[k].division.id@)
            },
        decreases players@.len() - i,
    {
        let q = &players[i];
        match find_group(groups, q.id.as_str()) {
            Some(g) => {
                if q.user.first_name.is_none() || q.user.last_name.is_none() {
                    return false;
                }
                let group = &groups[g];
                let hole_index = find_holes(holes, group.id.as_str());
                let results_index = crate::results::find_results(&results.players, q.id.as_str());
                match (hole_index, results_index) {
                    (Some(h), Some(k)) => {
                        assert(hv[h as int] == (holes@[h as int].0@, holes@[h as int].1));
                        assert(rv[k as int] == (results.players@[k as int].0@, results.players@[k as int].1@));
                        if !reports_fit_check(&results.players[k].1, &holes[h].1) {
                            return false;
                        }
                        if !division_listed(divisions, q.division.id.as_str()) {
                            return false;
                        }
                    },
                    _ => {
                        return false;
                    },
                }
            },
            None => {},
        }
        i = i + 1;
    }
    true
}

} // verus!
