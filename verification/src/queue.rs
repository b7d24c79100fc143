//! The players that the broadcast follows: the card on screen, the players
//! queued to be shown next, and the one in focus.
use vstd::prelude::*;

use crate::error::Error;
use crate::player::Player;
use crate::round::done_results;
use crate::standings::first_player_with_id;
use crate::text::{opt_view, str_eq};

verus! {

broadcast use vstd::seq_lib::group_seq_properties;

/// What the manager knows of one player.
pub struct QueueEntry {
    pub inside_card: bool,
    pub id: Seq<char>,
    pub queue: Option<usize>,
}

/// A player followed by the broadcast: on the current card, queued, or both.
#[derive(Debug)]
pub struct PlayerWithQueue {
    inside_card: bool,
    player_id: String,
    queue_position: Option<usize>,
}

impl View for PlayerWithQueue {
    type V = QueueEntry;

    closed spec fn view(&self) -> QueueEntry {
        QueueEntry { inside_card: self.inside_card, id: self.player_id@, queue: self.queue_position }
    }
}

impl PlayerWithQueue {
    pub fn player_id(&self) -> (r: &str)
        ensures
            r@ == self@.id,
    {
        self.player_id.as_str()
    }

    pub fn queue_position(&self) -> (r: Option<usize>)
        ensures
            r == self@.queue,
    {
        self.queue_position
    }

    pub fn inside_card(&self) -> (r: bool)
        ensures
            r == self@.inside_card,
    {
        self.inside_card
    }

    pub fn duplicate(&self) -> (r: Self)
        ensures
            r@ == self@,
    {
        PlayerWithQueue {
            inside_card: self.inside_card,
            player_id: self.player_id.clone(),
            queue_position: self.queue_position,
        }
    }
}

/// The entry of a player who has just been put on the card.
pub open spec fn fresh_entry(id: Seq<char>) -> QueueEntry {
    QueueEntry { inside_card: true, id, queue: None }
}

/// The players of a card as fresh entries.
pub open spec fn card_entries(ids: Seq<Seq<char>>) -> Seq<QueueEntry> {
    ids.map_values(|id: Seq<char>| fresh_entry(id))
}

/// The entries on the card, in order.
pub open spec fn card_of(s: Seq<QueueEntry>) -> Seq<QueueEntry> {
    s.filter(|e: QueueEntry| e.inside_card)
}

/// The entries that are queued, in order.
pub open spec fn queued_of(s: Seq<QueueEntry>) -> Seq<QueueEntry> {
    s.filter(|e: QueueEntry| e.queue is Some)
}

/// The highest queue position (0 when nobody is queued).
pub open spec fn max_queue(s: Seq<QueueEntry>) -> nat
    decreases s.len(),
{
    if s.len() == 0 {
        0
    } else {
        let rest = max_queue(s.drop_last());
        match s.last().queue {
            Some(p) => if p > rest { p as nat } else { rest },
            None => rest,
        }
    }
}

/// The first index, at or after `from`, of an entry with the given id.
pub open spec fn first_index_from(s: Seq<QueueEntry>, id: Seq<char>, from: int) -> Option<int>
    decreases s.len() - from,
{
    if from < 0 || from >= s.len() {
        None
    } else if s[from].id == id {
        Some(from)
    } else {
        first_index_from(s, id, from + 1)
    }
}

/// The first index of an entry with the given id.
pub open spec fn first_index(s: Seq<QueueEntry>, id: Seq<char>) -> Option<int> {
    first_index_from(s, id, 0)
}

/// The last index of an entry with the given id.
pub open spec fn last_index(s: Seq<QueueEntry>, id: Seq<char>) -> Option<int>
    decreases s.len(),
{
    if s.len() == 0 {
        None
    } else if s.last().id == id {
        Some(s.len() - 1)
    } else {
        last_index(s.drop_last(), id)
    }
}

/// Where the focus lies after focusing the player with the given id: on the
/// last entry with that id, or where it was when there is none.
pub open spec fn focus_on(s: Seq<QueueEntry>, id: Seq<char>, focused: int) -> int {
    match last_index(s, id) {
        Some(i) => i,
        None => focused,
    }
}

/// The entries after the player with the given id is queued: an unqueued
/// entry gets position `next`, a queued one keeps its place, and an unknown
/// player is added behind the others, off the card.
pub open spec fn queued_with(s: Seq<QueueEntry>, id: Seq<char>, next: nat) -> Seq<QueueEntry> {
    match first_index(s, id) {
        Some(i) => if s[i].queue is None {
            s.update(i, QueueEntry { queue: Some(next as usize), ..s[i] })
        } else {
            s
        },
        None => s.push(QueueEntry { inside_card: false, id, queue: Some(next as usize) }),
    }
}

/// One step of the queue: position 1 leaves the queue, the others move up.
pub open spec fn step_entry(e: QueueEntry) -> QueueEntry {
    match e.queue {
        Some(p) => if p == 1 {
            QueueEntry { queue: None, ..e }
        } else {
            QueueEntry { queue: Some((p - 1) as usize), ..e }
        },
        None => e,
    }
}

/// The entries after one step of the queue.
pub open spec fn stepped(s: Seq<QueueEntry>) -> Seq<QueueEntry> {
    s.map_values(|e: QueueEntry| step_entry(e))
}

/// The last index of an entry at queue position 1.
pub open spec fn last_first_in_queue(s: Seq<QueueEntry>) -> Option<int>
    decreases s.len(),
{
    if s.len() == 0 {
        None
    } else if s.last().queue == Some(1usize) {
        Some(s.len() - 1)
    } else {
        last_first_in_queue(s.drop_last())
    }
}

/// Whether an entry stays when the list is tidied while `focused_id` is in focus.
pub open spec fn keeps(e: QueueEntry, focused_id: Seq<char>) -> bool {
    e.inside_card || e.queue is Some || e.id == focused_id
}

/// The entries that stay when the list is tidied while `focused_id` is in focus.
pub open spec fn tidied(s: Seq<QueueEntry>, focused_id: Seq<char>) -> Seq<QueueEntry> {
    s.filter(|e: QueueEntry| keeps(e, focused_id))
}

/// The entry of a player on a new card: its old entry (the first with its
/// id), now on the card, or a fresh one.
pub open spec fn carried_entry(s: Seq<QueueEntry>, id: Seq<char>) -> QueueEntry {
    match first_index(s, id) {
        Some(i) => QueueEntry { inside_card: true, ..s[i] },
        None => fresh_entry(id),
    }
}

/// Whether an old entry stays, off the card, when a new card is set: it is queued
/// and its player is not on the new card.
pub open spec fn stays_off_card(e: QueueEntry, ids: Seq<Seq<char>>) -> bool {
    !ids.contains(e.id) && e.queue is Some
}

/// An entry taken off the card.
pub open spec fn off_card(e: QueueEntry) -> QueueEntry {
    QueueEntry { inside_card: false, ..e }
}

/// The entries after a new card is set: the new card first, then the queued
/// players who are not on it.
pub open spec fn replaced(s: Seq<QueueEntry>, ids: Seq<Seq<char>>) -> Seq<QueueEntry> {
    ids.map_values(|id: Seq<char>| carried_entry(s, id)) + s.filter(
        |e: QueueEntry| stays_off_card(e, ids),
    ).map_values(|e: QueueEntry| off_card(e))
}

proof fn lemma_first_index_from(s: Seq<QueueEntry>, id: Seq<char>, from: int)
    requires
        0 <= from,
    ensures
        match first_index_from(s, id, from) {
            Some(k) => from <= k < s.len() && s[k].id == id && forall|j: int|
                from <= j < k ==> s[j].id != id,
            None => forall|j: int| from <= j < s.len() ==> s[j].id != id,
        },
    decreases s.len() - from,
{
    if from < s.len() && s[from].id != id {
        lemma_first_index_from(s, id, from + 1);
    }
}

pub proof fn lemma_last_index(s: Seq<QueueEntry>, id: Seq<char>)
    ensures
        match last_index(s, id) {
            Some(k) => 0 <= k < s.len() && s[k].id == id && forall|j: int| k < j < s.len() ==> s[j].id != id,
            None => forall|j: int| 0 <= j < s.len() ==> s[j].id != id,
        },
    decreases s.len(),
{
    if s.len() > 0 && s.last().id != id {
        lemma_last_index(s.drop_last(), id);
        assert forall|j: int| 0 <= j < s.len() - 1 implies s.drop_last()[j] == s[j] by {}
    }
}

/// No entry sits at queue position 0 (positions start at 1).
pub open spec fn no_zero_position(s: Seq<QueueEntry>) -> bool {
    forall|i: int| 0 <= i < s.len() ==> s[i].queue != Some(0usize)
}

proof fn lemma_last_first_in_queue(s: Seq<QueueEntry>)
    ensures
        match last_first_in_queue(s) {
            Some(k) => 0 <= k < s.len() && s[k].queue == Some(1usize),
            None => forall|j: int| 0 <= j < s.len() ==> s[j].queue != Some(1usize),
        },
    decreases s.len(),
{
    if s.len() > 0 && s.last().queue != Some(1usize) {
        lemma_last_first_in_queue(s.drop_last());
        assert forall|j: int| 0 <= j < s.len() - 1 implies s.drop_last()[j] == s[j] by {}
    }
}

proof fn lemma_filter_no_zero(s: Seq<QueueEntry>, pred: spec_fn(QueueEntry) -> bool)
    requires
        no_zero_position(s),
    ensures
        no_zero_position(s.filter(pred)),
{
    let f = s.filter(pred);
    assert forall|k: int| 0 <= k < f.len() implies f[k].queue != Some(0usize) by {
        assert(f.contains(f[k]));
        s.lemma_filter_contains_rev(pred, f[k]);
    }
}

proof fn lemma_filter_all<A>(s: Seq<A>, p: spec_fn(A) -> bool)
    requires
        forall|i: int| 0 <= i < s.len() ==> p(#[trigger] s[i]),
    ensures
        s.filter(p) == s,
    decreases s.len(),
{
    if s.len() > 0 {
        lemma_filter_all(s.drop_last(), p);
        s.drop_last().lemma_filter_push(s.last(), p);
        assert(s.drop_last().push(s.last()) =~= s);
    } else {
        assert(s.filter(p) =~= s);
    }
}

proof fn lemma_filter_none<A>(s: Seq<A>, p: spec_fn(A) -> bool)
    requires
        forall|i: int| 0 <= i < s.len() ==> !p(#[trigger] s[i]),
    ensures
        s.filter(p).len() == 0,
{
    if s.filter(p).len() > 0 {
        let x = s.filter(p)[0];
        assert(s.filter(p).contains(x));
        s.lemma_filter_contains_rev(p, x);
    }
}

/// The entry a player carries onto a new card has the player's id.
proof fn lemma_carried_id(s: Seq<QueueEntry>, id: Seq<char>)
    ensures
        carried_entry(s, id).id == id,
        carried_entry(s, id).inside_card,
{
    lemma_first_index_from(s, id, 0);
}

/// Setting the same card twice gives the entries that setting it once gave.
pub proof fn lemma_replaced_twice(s: Seq<QueueEntry>, ids: Seq<Seq<char>>)
    ensures
        replaced(replaced(s, ids), ids) == replaced(s, ids),
{
    let stay = |e: QueueEntry| stays_off_card(e, ids);
    let card = ids.map_values(|id: Seq<char>| carried_entry(s, id));
    let rest = s.filter(stay).map_values(|e: QueueEntry| off_card(e));
    let s1 = replaced(s, ids);
    assert(s1 == card + rest);
    let n = ids.len();
    assert forall|j: int| 0 <= j < n implies #[trigger] card[j].id == ids[j] && card[j].inside_card by {
        lemma_carried_id(s, ids[j]);
    }
    let card2 = ids.map_values(|id: Seq<char>| carried_entry(s1, id));
    assert forall|j: int| 0 <= j < n implies #[trigger] card2[j] == card[j] by {
        lemma_first_index_from(s1, ids[j], 0);
        assert(s1[j] == card[j]);
        let k = first_index(s1, ids[j])->0;
        assert(k <= j);
        assert(s1[k] == card[k]);
        assert(ids[k] == ids[j]);
    }
    assert(card2 =~= card);
    Seq::filter_distributes_over_add(card, rest, stay);
    lemma_filter_none(card, stay);
    assert forall|i: int| 0 <= i < rest.len() implies stay(#[trigger] rest[i]) by {
        let f = s.filter(stay);
        assert(f.contains(f[i]));
        s.lemma_filter_contains_rev(stay, f[i]);
    }
    lemma_filter_all(rest, stay);
    assert(card.filter(stay) =~= Seq::<QueueEntry>::empty());
    assert(s1.filter(stay) =~= rest);
    assert(rest.map_values(|e: QueueEntry| off_card(e)) =~= rest);
    assert(replaced(s1, ids) =~= s1);
}

/// Whether two entries, the first before the second, are in order: a card
/// entry never follows one off the card, their ids differ, and two queued
/// entries hold different positions.
pub open spec fn entries_apart(a: QueueEntry, b: QueueEntry) -> bool {
    &&& b.inside_card ==> a.inside_card
    &&& a.id != b.id
    &&& (a.queue is Some && b.queue is Some) ==> a.queue != b.queue
}

/// Whether some entry is queued at position `p`.
pub open spec fn position_taken(s: Seq<QueueEntry>, p: int) -> bool {
    exists|i: int| 0 <= i < s.len() && s[i].queue is Some && s[i].queue->0 == p
}

/// Whether the entries are in good order with the given focus: the card comes
/// first, no id occurs twice, the `n` queued entries hold the positions 1 to
/// `n`, each once, and the focus lies on an entry.
pub open spec fn well_ordered(s: Seq<QueueEntry>, focus: int) -> bool {
    &&& forall|i: int, j: int| 0 <= i < j < s.len() ==> entries_apart(#[trigger] s[i], #[trigger] s[j])
    &&& forall|i: int| 0 <= i < s.len() ==> ((#[trigger] s[i]).queue matches Some(p) ==> 1 <= p <= queued_of(s).len())
    &&& forall|p: int| 1 <= p <= queued_of(s).len() ==> #[trigger] position_taken(s, p)
    &&& 0 <= focus < s.len()
}

proof fn lemma_max_queue(s: Seq<QueueEntry>)
    ensures
        forall|i: int| 0 <= i < s.len() ==> ((#[trigger] s[i]).queue matches Some(p) ==> p <= max_queue(s)),
        max_queue(s) == 0 || position_taken(s, max_queue(s) as int),
    decreases s.len(),
{
    if s.len() > 0 {
        let t = s.drop_last();
        lemma_max_queue(t);
        assert forall|i: int| 0 <= i < s.len() implies ((#[trigger] s[i]).queue matches Some(p) ==> p <= max_queue(s)) by {
            if i < t.len() {
                assert(s[i] == t[i]);
            }
        }
        if max_queue(s) != 0 && max_queue(s) != max_queue(t) {
            assert(s[s.len() - 1].queue is Some && s[s.len() - 1].queue->0 == max_queue(s));
        } else if max_queue(s) != 0 {
            let i = choose|i: int| 0 <= i < t.len() && t[i].queue is Some && t[i].queue->0 == max_queue(t);
            assert(s[i] == t[i]);
        }
    }
}

/// In good order, the highest queue position is the number queued.
proof fn lemma_max_is_count(s: Seq<QueueEntry>, focus: int)
    requires
        well_ordered(s, focus),
    ensures
        max_queue(s) == queued_of(s).len(),
{
    lemma_max_queue(s);
    let n = queued_of(s).len();
    if max_queue(s) != 0 {
        let i = choose|i: int| 0 <= i < s.len() && s[i].queue is Some && s[i].queue->0 == max_queue(s);
        assert(s[i].queue matches Some(p) ==> p <= n);
    }
    if n > 0 {
        assert(position_taken(s, n as int));
        let i = choose|i: int| 0 <= i < s.len() && s[i].queue is Some && s[i].queue->0 == n;
        assert(s[i].queue matches Some(p) ==> p <= max_queue(s));
    }
}

proof fn lemma_count_one(x: QueueEntry)
    ensures
        queued_of(seq![x]).len() == if x.queue is Some { 1int } else { 0int },
{
    let e = Seq::<QueueEntry>::empty();
    e.lemma_filter_push(x, |e: QueueEntry| e.queue is Some);
    assert(e.push(x) =~= seq![x]);
    assert(e.filter(|e: QueueEntry| e.queue is Some) =~= e);
}

proof fn lemma_count_update(s: Seq<QueueEntry>, i: int, x: QueueEntry)
    requires
        0 <= i < s.len(),
    ensures
        queued_of(s.update(i, x)).len() == queued_of(s).len() - (if s[i].queue is Some { 1int } else { 0int })
            + (if x.queue is Some { 1int } else { 0int }),
{
    let pred = |e: QueueEntry| e.queue is Some;
    let a = s.take(i);
    let b = s.skip(i + 1);
    assert(s =~= a + seq![s[i]] + b);
    assert(s.update(i, x) =~= a + seq![x] + b);
    Seq::filter_distributes_over_add(a + seq![s[i]], b, pred);
    Seq::filter_distributes_over_add(a, seq![s[i]], pred);
    Seq::filter_distributes_over_add(a + seq![x], b, pred);
    Seq::filter_distributes_over_add(a, seq![x], pred);
    lemma_count_one(s[i]);
    lemma_count_one(x);
}

/// Putting a player in the queue keeps the entries in good order (with the
/// focus where it was); one more entry is queued unless the player was
/// queued already.
pub proof fn lemma_add_keeps_order(s: Seq<QueueEntry>, focus: int, id: Seq<char>)
    requires
        well_ordered(s, focus),
        max_queue(s) < usize::MAX,
    ensures
        well_ordered(queued_with(s, id, max_queue(s) + 1), focus),
        queued_of(queued_with(s, id, max_queue(s) + 1)).len() == queued_of(s).len() + if exists|i: int|
            0 <= i < s.len() && s[i].id == id && s[i].queue is Some {
            0int
        } else {
            1int
        },
{
    let n = queued_of(s).len();
    lemma_max_is_count(s, focus);
    lemma_max_queue(s);
    lemma_first_index_from(s, id, 0);
    let t = queued_with(s, id, max_queue(s) + 1);
    let np = (n + 1) as usize;
    match first_index(s, id) {
        Some(k) => {
            if s[k].queue is None {
                let x = QueueEntry { queue: Some(np), ..s[k] };
                assert(t == s.update(k, x));
                lemma_count_update(s, k, x);
                assert(queued_of(t).len() == n + 1);
                assert forall|i: int, j: int| 0 <= i < j < t.len() implies entries_apart(#[trigger] t[i], #[trigger] t[j]) by {
                    assert(entries_apart(s[i], s[j]));
                    if i == k {
                        assert(s[j].queue matches Some(p) ==> p <= n);
                    }
                    if j == k {
                        assert(s[i].queue matches Some(p) ==> p <= n);
                    }
                }
                assert forall|i: int| 0 <= i < t.len() implies ((#[trigger] t[i]).queue matches Some(p) ==> 1 <= p <= queued_of(t).len()) by {
                    if i != k {
                        assert(s[i].queue matches Some(p) ==> 1 <= p <= n);
                    }
                }
                assert forall|p: int| 1 <= p <= queued_of(t).len() implies #[trigger] position_taken(t, p) by {
                    if p <= n {
                        assert(position_taken(s, p));
                        let j = choose|j: int| 0 <= j < s.len() && s[j].queue is Some && s[j].queue->0 == p;
                        assert(t[j] == s[j]);
                    } else {
                        assert(t[k].queue == Some(np));
                    }
                }
                assert(!exists|i: int| 0 <= i < s.len() && s[i].id == id && s[i].queue is Some) by {
                    if exists|i: int| 0 <= i < s.len() && s[i].id == id && s[i].queue is Some {
                        let i = choose|i: int| 0 <= i < s.len() && s[i].id == id && s[i].queue is Some;
                        if i < k {
                            assert(false);
                        } else if i > k {
                            assert(entries_apart(s[k], s[i]));
                        }
                    }
                }
            } else {
                assert(t == s);
                assert(s[k].id == id && s[k].queue is Some);
            }
        },
        None => {
            let x = QueueEntry { inside_card: false, id, queue: Some(np) };
            assert(t == s.push(x));
            s.lemma_filter_push(x, |e: QueueEntry| e.queue is Some);
            assert(queued_of(t).len() == n + 1);
            assert forall|i: int, j: int| 0 <= i < j < t.len() implies entries_apart(#[trigger] t[i], #[trigger] t[j]) by {
                if j < s.len() {
                    assert(entries_apart(s[i], s[j]));
                } else {
                    assert(t[i] == s[i]);
                    assert(s[i].queue matches Some(p) ==> p <= n);
                }
            }
            assert forall|i: int| 0 <= i < t.len() implies ((#[trigger] t[i]).queue matches Some(p) ==> 1 <= p <= queued_of(t).len()) by {
                if i < s.len() {
                    assert(t[i] == s[i]);
                    assert(s[i].queue matches Some(p) ==> 1 <= p <= n);
                }
            }
            assert forall|p: int| 1 <= p <= queued_of(t).len() implies #[trigger] position_taken(t, p) by {
                if p <= n {
                    assert(position_taken(s, p));
                    let j = choose|j: int| 0 <= j < s.len() && s[j].queue is Some && s[j].queue->0 == p;
                    assert(t[j] == s[j]);
                } else {
                    assert(t[s.len() as int].queue == Some(np));
                }
            }
        },
    }
}

proof fn lemma_filter_apart(s: Seq<QueueEntry>, p: spec_fn(QueueEntry) -> bool)
    requires
        forall|i: int, j: int| 0 <= i < j < s.len() ==> entries_apart(#[trigger] s[i], #[trigger] s[j]),
    ensures
        forall|i: int, j: int| 0 <= i < j < s.filter(p).len() ==> entries_apart(#[trigger] s.filter(p)[i], #[trigger] s.filter(p)[j]),
    decreases s.len(),
{
    if s.len() > 0 {
        let t = s.drop_last();
        assert forall|i: int, j: int| 0 <= i < j < t.len() implies entries_apart(#[trigger] t[i], #[trigger] t[j]) by {
            assert(entries_apart(s[i], s[j]));
        }
        lemma_filter_apart(t, p);
        assert(t.push(s.last()) =~= s);
        t.lemma_filter_push(s.last(), p);
        let f = s.filter(p);
        let ft = t.filter(p);
        assert forall|i: int, j: int| 0 <= i < j < f.len() implies entries_apart(#[trigger] f[i], #[trigger] f[j]) by {
            if j < ft.len() {
                assert(f[i] == ft[i] && f[j] == ft[j]);
            } else {
                assert(f[j] == s.last());
                assert(f[i] == ft[i]);
                assert(ft.contains(ft[i]));
                t.lemma_filter_contains_rev(p, ft[i]);
                let k = choose|k: int| 0 <= k < t.len() && t[k] == ft[i];
                assert(entries_apart(s[k], s[s.len() - 1]));
            }
        }
    }
}

proof fn lemma_count_tidied(s: Seq<QueueEntry>, fid: Seq<char>)
    ensures
        queued_of(tidied(s, fid)).len() == queued_of(s).len(),
    decreases s.len(),
{
    if s.len() > 0 {
        let t = s.drop_last();
        let x = s.last();
        lemma_count_tidied(t, fid);
        assert(t.push(x) =~= s);
        let kp = |e: QueueEntry| keeps(e, fid);
        let qp = |e: QueueEntry| e.queue is Some;
        t.lemma_filter_push(x, kp);
        t.lemma_filter_push(x, qp);
        t.filter(kp).lemma_filter_push(x, qp);
    }
}

/// The entries at queue position 1.
pub open spec fn at_front(s: Seq<QueueEntry>) -> Seq<QueueEntry> {
    s.filter(|e: QueueEntry| e.queue == Some(1usize))
}

proof fn lemma_count_stepped(s: Seq<QueueEntry>)
    ensures
        queued_of(stepped(s)).len() + at_front(s).len() == queued_of(s).len(),
    decreases s.len(),
{
    if s.len() > 0 {
        let t = s.drop_last();
        let x = s.last();
        lemma_count_stepped(t);
        assert(t.push(x) =~= s);
        assert(stepped(s) =~= stepped(t).push(step_entry(x)));
        let qp = |e: QueueEntry| e.queue is Some;
        let fp = |e: QueueEntry| e.queue == Some(1usize);
        t.lemma_filter_push(x, qp);
        t.lemma_filter_push(x, fp);
        stepped(t).lemma_filter_push(step_entry(x), qp);
    }
}

proof fn lemma_front_at_most_one(s: Seq<QueueEntry>)
    requires
        forall|i: int, j: int| 0 <= i < j < s.len() ==> entries_apart(#[trigger] s[i], #[trigger] s[j]),
    ensures
        at_front(s).len() <= 1,
    decreases s.len(),
{
    if s.len() > 0 {
        let t = s.drop_last();
        let x = s.last();
        let fp = |e: QueueEntry| e.queue == Some(1usize);
        assert forall|i: int, j: int| 0 <= i < j < t.len() implies entries_apart(#[trigger] t[i], #[trigger] t[j]) by {
            assert(entries_apart(s[i], s[j]));
        }
        lemma_front_at_most_one(t);
        assert(t.push(x) =~= s);
        t.lemma_filter_push(x, fp);
        if fp(x) {
            assert forall|i: int| 0 <= i < t.len() implies !fp(#[trigger] t[i]) by {
                assert(entries_apart(s[i], s[s.len() - 1]));
            }
            lemma_filter_none(t, fp);
        }
    }
}

/// Moving the queue one step keeps the entries in good order (see
/// `next_queued`): the focus lands on an entry, and one entry fewer is queued
/// (none stays none).
pub proof fn lemma_step_keeps_order(s: Seq<QueueEntry>, focus: int)
    requires
        well_ordered(s, focus),
    ensures
        ({
            let st = stepped(s);
            let fa = match last_first_in_queue(s) {
                Some(k) => focus_on(st, s[k].id, focus),
                None => focus,
            };
            let fid = st[fa].id;
            let t = tidied(st, fid);
            &&& well_ordered(t, focus_on(t, fid, fa))
            &&& queued_of(t).len() == if queued_of(s).len() > 0 { queued_of(s).len() - 1 } else { 0 }
        }),
{
    let n = queued_of(s).len();
    let st = stepped(s);
    let fp = |e: QueueEntry| e.queue == Some(1usize);
    lemma_count_stepped(s);
    lemma_front_at_most_one(s);
    if n > 0 {
        assert(position_taken(s, 1));
        let i = choose|i: int| 0 <= i < s.len() && s[i].queue is Some && s[i].queue->0 == 1;
        s.lemma_filter_contains(fp, i);
    } else {
        assert forall|i: int| 0 <= i < s.len() implies !fp(#[trigger] s[i]) by {
            assert(s[i].queue matches Some(p) ==> 1 <= p <= n);
        }
        lemma_filter_none(s, fp);
    }
    let m = queued_of(st).len();
    assert(m == if n > 0 { n - 1 } else { 0 });
    // The stepped entries are in order.
    assert forall|i: int, j: int| 0 <= i < j < st.len() implies entries_apart(#[trigger] st[i], #[trigger] st[j]) by {
        assert(entries_apart(s[i], s[j]));
        assert(s[i].queue matches Some(p) ==> 1 <= p <= n);
        assert(s[j].queue matches Some(p) ==> 1 <= p <= n);
    }
    assert forall|i: int| 0 <= i < st.len() implies ((#[trigger] st[i]).queue matches Some(p) ==> 1 <= p <= m) by {
        assert(s[i].queue matches Some(p) ==> 1 <= p <= n);
    }
    assert forall|p: int| 1 <= p <= m implies #[trigger] position_taken(st, p) by {
        assert(position_taken(s, p + 1));
        let j = choose|j: int| 0 <= j < s.len() && s[j].queue is Some && s[j].queue->0 == p + 1;
        assert(st[j] == step_entry(s[j]));
    }
    // The entry the focus lands on.
    lemma_last_first_in_queue(s);
    let fa = match last_first_in_queue(s) {
        Some(k) => focus_on(st, s[k].id, focus),
        None => focus,
    };
    match last_first_in_queue(s) {
        Some(k) => {
            lemma_last_index(st, s[k].id);
        },
        None => {},
    }
    assert(0 <= fa < st.len());
    let fid = st[fa].id;
    let kp = |e: QueueEntry| keeps(e, fid);
    let t = tidied(st, fid);
    assert(t == st.filter(kp));
    lemma_filter_apart(st, kp);
    lemma_count_tidied(st, fid);
    assert forall|i: int| 0 <= i < t.len() implies ((#[trigger] t[i]).queue matches Some(p) ==> 1 <= p <= queued_of(t).len()) by {
        assert(t.contains(t[i]));
        st.lemma_filter_contains_rev(kp, t[i]);
        let j = choose|j: int| 0 <= j < st.len() && st[j] == t[i];
        assert(st[j].queue matches Some(p) ==> 1 <= p <= m);
    }
    assert forall|p: int| 1 <= p <= queued_of(t).len() implies #[trigger] position_taken(t, p) by {
        assert(position_taken(st, p));
        let j = choose|j: int| 0 <= j < st.len() && st[j].queue is Some && st[j].queue->0 == p;
        st.lemma_filter_contains(kp, j);
        assert(t.contains(st[j]));
        let k = choose|k: int| 0 <= k < t.len() && t[k] == st[j];
        assert(t[k].queue is Some && t[k].queue->0 == p);
    }
    st.lemma_filter_contains(kp, fa);
    assert(t.contains(st[fa]));
    lemma_last_index(t, fid);
    if last_index(t, fid) is None {
        let k = choose|k: int| 0 <= k < t.len() && t[k] == st[fa];
        assert(t[k].id == fid);
    }
}

/// The players followed by the broadcast, in order: the card first.
#[derive(Debug)]
pub struct PlayerManager {
    managed_players: Vec<PlayerWithQueue>,
    focused: usize,
}

/// The players of a card, none of them queued.
pub fn new_card(card: Vec<String>) -> (r: Vec<PlayerWithQueue>)
    ensures
        r@.map_values(|p: PlayerWithQueue| p@) =~= card_entries(card@.map_values(|s: String| s@)),
{
    let mut out: Vec<PlayerWithQueue> = Vec::new();
    let mut i: usize = 0;
    while i < card.len()
        invariant
            i <= card.len(),
            out@.len() == i,
            forall|j: int| 0 <= j < i ==> (#[trigger] out@[j])@ == fresh_entry(card@[j]@),
        decreases card.len() - i,
    {
        out.push(PlayerWithQueue { inside_card: true, player_id: card[i].clone(), queue_position: None });
        i = i + 1;
    }
    out
}

impl PlayerManager {
    /// The entries, in order.
    pub closed spec fn entries(&self) -> Seq<QueueEntry> {
        self.managed_players@.map_values(|p: PlayerWithQueue| p@)
    }

    /// The index of the entry in focus.
    pub closed spec fn focus(&self) -> int {
        self.focused as int
    }

    /// Whether the focus lies on an entry.
    pub open spec fn has_focus(&self) -> bool {
        0 <= self.focus() < self.entries().len()
    }

    /// The focus is an index: never negative, and within `usize`.
    pub proof fn lemma_focus_is_index(&self)
        ensures
            0 <= self.focus() <= usize::MAX,
    {
    }

    /// Setting the same card twice (the manager `b` after `replace` from `a`,
    /// then `c` after `replace` from `b`, with the same ids) leaves the entries
    /// and the focus as the first call left them.
    pub proof fn lemma_replace_twice(a: PlayerManager, b: PlayerManager, c: PlayerManager, ids: Seq<Seq<char>>)
        requires
            replaced(a.entries(), ids).len() > 0,
            b.entries() == replaced(a.entries(), ids),
            b.focus() == if a.focus() >= b.entries().len() { b.entries().len() - 1 } else { a.focus() },
            c.entries() == replaced(b.entries(), ids),
            c.focus() == if b.focus() >= c.entries().len() { c.entries().len() - 1 } else { b.focus() },
        ensures
            c.entries() == b.entries(),
            c.focus() == b.focus(),
    {
        lemma_replaced_twice(a.entries(), ids);
        a.lemma_focus_is_index();
    }

    /// A manager for a card; the first player is in focus.
    pub fn new(card: Vec<String>) -> (r: Self)
        ensures
            no_zero_position(r.entries()),
            r.entries() =~= card_entries(card@.map_values(|s: String| s@)),
            r.focus() == 0,
    {
        Self { managed_players: new_card(card), focused: 0 }
    }

    /// Sets a new card. Its players keep their queue positions; the queued
    /// players who are not on it stay, behind it; everyone else leaves. The
    /// focus stays where it was, or moves to the last entry if the list got shorter.
    pub fn replace(&mut self, new_card_ids: Vec<String>)
        requires
            replaced(old(self).entries(), new_card_ids@.map_values(|s: String| s@)).len() > 0,
        ensures
            final(self).entries() =~= replaced(old(self).entries(), new_card_ids@.map_values(|s: String| s@)),
            no_zero_position(old(self).entries()) ==> no_zero_position(final(self).entries()),
            final(self).focus() == if old(self).focus() >= final(self).entries().len() {
                final(self).entries().len() - 1
            } else {
                old(self).focus()
            },
    {
        let ghost s = self.entries();
        let ghost ids = new_card_ids@.map_values(|x: String| x@);
        let mut out: Vec<PlayerWithQueue> = Vec::new();
        let mut i: usize = 0;
        while i < new_card_ids.len()
            invariant
                i <= new_card_ids.len(),
                s == self.entries(),
                ids == new_card_ids@.map_values(|x: String| x@),
                out@.len() == i,
                forall|j: int| 0 <= j < i ==> (#[trigger] out@[j])@ == carried_entry(s, ids[j]),
            decreases new_card_ids.len() - i,
        {
            let found = self.find_first(new_card_ids[i].as_str());
            proof {
                lemma_first_index_from(s, ids[i as int], 0);
                assert(ids[i as int] == new_card_ids@[i as int]@);
            }
            match found {
                Some(k) => {
                    assert(s[k as int] == self.managed_players@[k as int]@);
                    let mut entry = self.managed_players[k].duplicate();
                    entry.inside_card = true;
                    assert(entry@ == carried_entry(s, ids[i as int]));
                    out.push(entry);
                },
                None => {
                    let entry = PlayerWithQueue {
                        inside_card: true,
                        player_id: new_card_ids[i].clone(),
                        queue_position: None,
                    };
                    assert(entry@ == carried_entry(s, ids[i as int]));
                    out.push(entry);
                },
            }
            i = i + 1;
        }
        let ghost card_part = out@.map_values(|p: PlayerWithQueue| p@);
        assert(card_part =~= ids.map_values(|id: Seq<char>| carried_entry(s, id)));
        let ghost pred = |e: QueueEntry| stays_off_card(e, ids);
        let mut j: usize = 0;
        while j < self.managed_players.len()
            invariant
                j <= self.managed_players.len(),
                s == self.entries(),
                ids == new_card_ids@.map_values(|x: String| x@),
                pred == (|e: QueueEntry| stays_off_card(e, ids)),
                out@.len() >= new_card_ids.len(),
                out@.map_values(|p: PlayerWithQueue| p@) =~= card_part + s.take(j as int).filter(pred).map_values(
                    |e: QueueEntry| off_card(e),
                ),
            decreases self.managed_players.len() - j,
        {
            let keep = self.managed_players[j].queue_position.is_some()
                && !contains_id(&new_card_ids, self.managed_players[j].player_id.as_str());
            proof {
                assert(s.take(j + 1) =~= s.take(j as int).push(s[j as int]));
                s.take(j as int).lemma_filter_push(s[j as int], pred);
            }
            let ghost before = out@.map_values(|p: PlayerWithQueue| p@);
            assert(s[j as int] == self.managed_players@[j as int]@);
            if keep {
                let mut entry = self.managed_players[j].duplicate();
                entry.inside_card = false;
                out.push(entry);
                assert(out@.map_values(|p: PlayerWithQueue| p@) =~= before.push(off_card(s[j as int])));
                assert(s.take(j as int).filter(pred).push(s[j as int]).map_values(|e: QueueEntry| off_card(e))
                    =~= s.take(j as int).filter(pred).map_values(|e: QueueEntry| off_card(e)).push(off_card(s[j as int])));
            }
            j = j + 1;
        }
        proof {
            assert(s.take(s.len() as int) =~= s);
        }
        self.managed_players = out;
        proof {
            if no_zero_position(s) {
                let f = s.filter(pred);
                lemma_filter_no_zero(s, pred);
                let all = self.entries();
                assert forall|k: int| 0 <= k < all.len() implies all[k].queue != Some(0usize) by {
                    if k >= new_card_ids.len() {
                        assert(all[k] == off_card(f[k - new_card_ids.len()]));
                    } else {
                        lemma_first_index_from(s, ids[k], 0);
                    }
                }
            }
        }
        if self.focused >= self.managed_players.len() {
            self.focused = self.managed_players.len() - 1;
        }
    }

    /// The entries on the card, in order.
    pub fn internal_card(&self) -> (r: Vec<&PlayerWithQueue>)
        ensures
            r@.map_values(|p: &PlayerWithQueue| p@) =~= card_of(self.entries()),
    {
        let ghost s = self.entries();
        let ghost pred = |e: QueueEntry| e.inside_card;
        let mut out: Vec<&PlayerWithQueue> = Vec::new();
        let mut i: usize = 0;
        while i < self.managed_players.len()
            invariant
                i <= self.managed_players.len(),
                s == self.entries(),
                pred == (|e: QueueEntry| e.inside_card),
                out@.map_values(|p: &PlayerWithQueue| p@) =~= s.take(i as int).filter(pred),
            decreases self.managed_players.len() - i,
        {
            proof {
                assert(s.take(i + 1) =~= s.take(i as int).push(s[i as int]));
                s.take(i as int).lemma_filter_push(s[i as int], pred);
                assert(s[i as int] == self.managed_players@[i as int]@);
            }
            if self.managed_players[i].inside_card {
                out.push(&self.managed_players[i]);
            }
            i = i + 1;
        }
        proof {
            assert(s.take(s.len() as int) =~= s);
        }
        out
    }

    /// The entry at place `index` of the card.
    pub fn get_card_index(&self, index: usize) -> (r: Option<&PlayerWithQueue>)
        ensures
            index < card_of(self.entries()).len() ==> r is Some && r->0@ == card_of(self.entries())[index as int],
            index >= card_of(self.entries()).len() ==> r is None,
    {
        let card = self.internal_card();
        if index < card.len() {
            let r = card[index];
            proof {
                assert(card@.map_values(|p: &PlayerWithQueue| p@)[index as int] == card@[index as int]@);
            }
            Some(r)
        } else {
            None
        }
    }

    /// The entry in focus.
    pub fn focused_player(&self) -> (r: &PlayerWithQueue)
        requires
            self.has_focus(),
        ensures
            r@ == self.entries()[self.focus()],
    {
        &self.managed_players[self.focused]
    }

    /// The id of the player at place `index` of the card.
    pub fn focused_id(&self, index: usize) -> (r: Option<&str>)
        ensures
            index < card_of(self.entries()).len() ==> r is Some && r->0@ == card_of(self.entries())[index as int].id,
            index >= card_of(self.entries()).len() ==> r is None,
    {
        match self.get_card_index(index) {
            Some(p) => Some(p.player_id.as_str()),
            None => None,
        }
    }

    /// The position the next queued player gets: one behind the last.
    pub fn next_queue_position(&self) -> (r: usize)
        requires
            max_queue(self.entries()) < usize::MAX,
        ensures
            r == max_queue(self.entries()) + 1,
    {
        let ghost s = self.entries();
        let mut max: usize = 0;
        let mut i: usize = 0;
        while i < self.managed_players.len()
            invariant
                i <= self.managed_players.len(),
                s == self.entries(),
                max == max_queue(s.take(i as int)),
            decreases self.managed_players.len() - i,
        {
            proof {
                assert(s.take(i + 1).drop_last() =~= s.take(i as int));
                assert(s[i as int] == self.managed_players@[i as int]@);
            }
            match self.managed_players[i].queue_position {
                Some(p) => {
                    if p > max {
                        max = p;
                    }
                },
                None => {},
            }
            i = i + 1;
        }
        proof {
            assert(s.take(s.len() as int) =~= s);
        }
        max + 1
    }

    /// Puts a player in the queue, behind the others. A player already in the
    /// queue keeps their place; a player the manager does not know is added
    /// off the card.
    #[verifier::rlimit(40)]
    pub fn add_to_queue(&mut self, id: String)
        requires
            max_queue(old(self).entries()) < usize::MAX,
        ensures
            final(self).entries() =~= queued_with(old(self).entries(), id@, max_queue(old(self).entries()) + 1),
            no_zero_position(old(self).entries()) ==> no_zero_position(final(self).entries()),
            final(self).focus() == old(self).focus(),
    {
        let next_queue_pos = self.next_queue_position();
        proof {
            lemma_first_index_from(self.entries(), id@, 0);
        }
        let ghost s = self.entries();
        match self.find_first(id.as_str()) {
            Some(k) => {
                proof {
                    lemma_first_index_from(s, id@, 0);
                    assert(s[k as int] == self.managed_players@[k as int]@);
                }
                if self.managed_players[k].queue_position.is_none() {
                    let mut entry = self.managed_players[k].duplicate();
                    entry.queue_position = Some(next_queue_pos);
                    self.managed_players.set(k, entry);
                    assert(self.entries() =~= s.update(k as int, QueueEntry { queue: Some(next_queue_pos), ..s[k as int] }));
                }
            },
            None => {
                self.managed_players.push(PlayerWithQueue {
                    inside_card: false,
                    player_id: id,
                    queue_position: Some(next_queue_pos),
                });
            },
        }
        proof {
            let f = self.entries();
            assert(f =~= queued_with(s, id@, max_queue(s) + 1));
            if no_zero_position(s) {
                assert forall|i: int| 0 <= i < f.len() implies f[i].queue != Some(0usize) by {
                    if i < s.len() && f[i] != s[i] {
                        assert(f[i].queue == Some(next_queue_pos));
                    }
                }
            }
        }
    }

    /// Focuses the last entry with the given id; nothing changes when there is none.
    pub fn set_focused(&mut self, id: &str)
        ensures
            final(self).has_focus() == (old(self).has_focus() || last_index(old(self).entries(), id@) is Some),
            final(self).entries() == old(self).entries(),
            final(self).focus() == focus_on(old(self).entries(), id@, old(self).focus()),
    {
        let ghost s = self.entries();
        let mut i: usize = self.managed_players.len();
        while i > 0
            invariant
                i <= self.managed_players.len(),
                s == self.entries(),
                s == old(self).entries(),
                self.focused == old(self).focused,
                last_index(s, id@) == last_index(s.take(i as int), id@),
            decreases i,
        {
            proof {
                assert(s.take(i as int).drop_last() =~= s.take(i - 1));
                assert(s[i - 1] == self.managed_players@[i - 1]@);
            }
            if str_eq(self.managed_players[i - 1].player_id.as_str(), id) {
                self.focused = i - 1;
                proof {
                    lemma_last_index(s, id@);
                }
                return;
            }
            i = i - 1;
        }
        assert(s.take(0) =~= Seq::<QueueEntry>::empty());
        proof {
            lemma_last_index(s, id@);
        }
    }

    /// Focuses the player at place `index` of the card; fails when the card is shorter.
    pub fn set_focused_by_card_index(&mut self, index: usize) -> (r: Result<(), Error>)
        ensures
            final(self).entries() == old(self).entries(),
            index < card_of(old(self).entries()).len() ==> r is Ok && final(self).focus() == focus_on(
                old(self).entries(),
                card_of(old(self).entries())[index as int].id,
                old(self).focus(),
            ),
            index >= card_of(old(self).entries()).len() ==> (r matches Err(Error::PlayerInCardNotFound(i))
                && i == index && final(self).focus() == old(self).focus()),
    {
        let id = match self.focused_id(index) {
            Some(id) => String::from_str(id),
            None => {
                return Err(Error::PlayerInCardNotFound(index));
            },
        };
        self.set_focused(id.as_str());
        Ok(())
    }

    /// The queued entries, in list order.
    pub fn queued_players(&self) -> (r: Vec<&PlayerWithQueue>)
        ensures
            r@.map_values(|p: &PlayerWithQueue| p@) =~= queued_of(self.entries()),
    {
        let ghost s = self.entries();
        let ghost pred = |e: QueueEntry| e.queue is Some;
        let mut out: Vec<&PlayerWithQueue> = Vec::new();
        let mut i: usize = 0;
        while i < self.managed_players.len()
            invariant
                i <= self.managed_players.len(),
                s == self.entries(),
                pred == (|e: QueueEntry| e.queue is Some),
                out@.map_values(|p: &PlayerWithQueue| p@) =~= s.take(i as int).filter(pred),
            decreases self.managed_players.len() - i,
        {
            proof {
                assert(s.take(i + 1) =~= s.take(i as int).push(s[i as int]));
                s.take(i as int).lemma_filter_push(s[i as int], pred);
                assert(s[i as int] == self.managed_players@[i as int]@);
            }
            if self.managed_players[i].queue_position.is_some() {
                out.push(&self.managed_players[i]);
            }
            i = i + 1;
        }
        proof {
            assert(s.take(s.len() as int) =~= s);
        }
        out
    }

    /// Drops the entries that are neither on the card, nor queued, nor in focus;
    /// the focus stays on the same player.
    fn clear_all_empty(&mut self)
        requires
            old(self).has_focus(),
        ensures
            no_zero_position(old(self).entries()) ==> no_zero_position(final(self).entries()),
            final(self).entries() =~= tidied(old(self).entries(), old(self).entries()[old(self).focus()].id),
            final(self).focus() == focus_on(
                tidied(old(self).entries(), old(self).entries()[old(self).focus()].id),
                old(self).entries()[old(self).focus()].id,
                old(self).focus(),
            ),
    {
        let current_focused = self.focused_player().player_id.clone();
        let ghost s = self.entries();
        let ghost fid = current_focused@;
        let ghost pred = |e: QueueEntry| keeps(e, fid);
        let mut out: Vec<PlayerWithQueue> = Vec::new();
        let mut i: usize = 0;
        while i < self.managed_players.len()
            invariant
                i <= self.managed_players.len(),
                s == self.entries(),
                pred == (|e: QueueEntry| keeps(e, fid)),
                fid == current_focused@,
                out@.map_values(|p: PlayerWithQueue| p@) =~= s.take(i as int).filter(pred),
            decreases self.managed_players.len() - i,
        {
            proof {
                assert(s.take(i + 1) =~= s.take(i as int).push(s[i as int]));
                s.take(i as int).lemma_filter_push(s[i as int], pred);
                assert(s[i as int] == self.managed_players@[i as int]@);
            }
            let ghost before = out@.map_values(|p: PlayerWithQueue| p@);
            let p = &self.managed_players[i];
            if p.inside_card || p.queue_position.is_some() || str_eq(p.player_id.as_str(), current_focused.as_str()) {
                out.push(p.duplicate());
                assert(out@.map_values(|p: PlayerWithQueue| p@) =~= before.push(s[i as int]));
            }
            i = i + 1;
        }
        proof {
            assert(s.take(s.len() as int) =~= s);
        }
        self.managed_players = out;
        proof {
            if no_zero_position(s) {
                lemma_filter_no_zero(s, pred);
            }
        }
        self.set_focused(current_focused.as_str());
    }

    /// Moves the queue one step: the player at position 1 comes into focus and
    /// leaves the queue, the others move up, and the entries that are no longer
    /// needed are dropped.
    pub fn next_queued(&mut self)
        requires
            old(self).has_focus(),
            no_zero_position(old(self).entries()),
        ensures
            no_zero_position(final(self).entries()),
            ({
                let stepped_entries = stepped(old(self).entries());
                let focus_after_step = match last_first_in_queue(old(self).entries()) {
                    Some(k) => focus_on(stepped_entries, old(self).entries()[k].id, old(self).focus()),
                    None => old(self).focus(),
                };
                let focused_id = stepped_entries[focus_after_step].id;
                &&& final(self).entries() =~= tidied(stepped_entries, focused_id)
                &&& final(self).focus() == focus_on(tidied(stepped_entries, focused_id), focused_id, focus_after_step)
            }),
    {
        let focused_player_id = self.step_queue();
        proof {
            lemma_last_first_in_queue(old(self).entries());
            assert(no_zero_position(self.entries()));
        }
        match focused_player_id {
            Some(id) => self.set_focused(id.as_str()),
            None => {},
        }
        self.clear_all_empty();
    }

    /// Moves every queued entry up one place; position 1 leaves the queue.
    /// Gives the id of the (last) player who left it.
    fn step_queue(&mut self) -> (r: Option<String>)
        requires
            no_zero_position(old(self).entries()),
        ensures
            final(self).entries() =~= stepped(old(self).entries()),
            final(self).focus() == old(self).focus(),
            match last_first_in_queue(old(self).entries()) {
                Some(k) => r is Some && r->0@ == old(self).entries()[k].id,
                None => r is None,
            },
    {
        let ghost s = self.entries();
        let mut focused_player_id: Option<String> = None;
        let mut out: Vec<PlayerWithQueue> = Vec::new();
        let mut i: usize = 0;
        while i < self.managed_players.len()
            invariant
                i <= self.managed_players.len(),
                s == self.entries(),
                no_zero_position(s),
                out@.len() == i,
                forall|j: int| 0 <= j < i ==> (#[trigger] out@[j])@ == step_entry(s[j]),
                match last_first_in_queue(s.take(i as int)) {
                    Some(k) => focused_player_id is Some && focused_player_id->0@ == s[k].id,
                    None => focused_player_id is None,
                },
            decreases self.managed_players.len() - i,
        {
            proof {
                assert(s.take(i + 1).drop_last() =~= s.take(i as int));
                assert(s.take(i + 1).last() == s[i as int]);
                lemma_last_first_in_queue(s.take(i as int));
                assert(s[i as int] == self.managed_players@[i as int]@);
            }
            let mut entry = self.managed_players[i].duplicate();
            match entry.queue_position {
                Some(pos) => {
                    if pos == 1 {
                        entry.queue_position = None;
                        focused_player_id = Some(entry.player_id.clone());
                    } else {
                        entry.queue_position = Some(pos - 1);
                    }
                },
                None => {},
            }
            out.push(entry);
            i = i + 1;
        }
        proof {
            assert(s.take(s.len() as int) =~= s);
        }
        self.managed_players = out;
        focused_player_id
    }

    /// The index of the first entry with the given id.
    fn find_first(&self, id: &str) -> (r: Option<usize>)
        ensures
            r matches Some(k) ==> first_index(self.entries(), id@) == Some(k as int),
            r is None ==> first_index(self.entries(), id@) is None,
    {
        let ghost s = self.entries();
        let mut i: usize = 0;
        while i < self.managed_players.len()
            invariant
                i <= self.managed_players.len(),
                s == self.entries(),
                first_index(s, id@) == first_index_from(s, id@, i as int),
            decreases self.managed_players.len() - i,
        {
            assert(s[i as int] == self.managed_players@[i as int]@);
            if str_eq(self.managed_players[i].player_id.as_str(), id) {
                return Some(i);
            }
            i = i + 1;
        }
        None
    }
}

/// Whether a list of ids holds the given id.
pub fn contains_id(ids: &Vec<String>, id: &str) -> (r: bool)
    ensures
        r == ids@.map_values(|s: String| s@).contains(id@),
{
    let ghost v = ids@.map_values(|s: String| s@);
    let mut i: usize = 0;
    while i < ids.len()
        invariant
            i <= ids.len(),
            v == ids@.map_values(|s: String| s@),
            forall|j: int| 0 <= j < i ==> v[j] != id@,
        decreases ids.len() - i,
    {
        if str_eq(ids[i].as_str(), id) {
            assert(v[i as int] == id@);
            return true;
        }
        i = i + 1;
    }
    false
}

/// The players as values.
pub open spec fn derefs(players: Seq<&Player>) -> Seq<Player> {
    players.map_values(|p: &Player| *p)
}

/// For each entry, in order, the first player with its id (where there is
/// one).
pub open spec fn matched_players(entries: Seq<QueueEntry>, players: Seq<Player>) -> Seq<Player>
    decreases entries.len(),
{
    if entries.len() == 0 {
        seq![]
    } else {
        matched_players(entries.drop_last(), players) + match first_player_with_id(players, entries.last().id, 0) {
            Some(k) => seq![players[k]],
            None => seq![],
        }
    }
}

/// What the interface lists of a player.
pub open spec fn dto_view(d: crate::dto::Player) -> (Seq<char>, Seq<char>, Option<Seq<char>>, bool, usize, usize, Option<usize>, (Seq<char>, Seq<char>, Seq<char>)) {
    (d.id@, d.name@, opt_view(d.image_url), d.focused, d.holes_finished, d.index, d.queue, crate::handler::division_view(d.division))
}

/// The listing of the first `n` entries (those on the card, with
/// `card_only`): each matched player (id, name, picture, holes finished, group
/// index and division), marked where the entry is in focus, with the entry's
/// queue place.
pub open spec fn listed(entries: Seq<QueueEntry>, focus: int, players: Seq<Player>, card_only: bool, n: int) -> Seq<(Seq<char>, Seq<char>, Option<Seq<char>>, bool, usize, usize, Option<usize>, (Seq<char>, Seq<char>, Seq<char>))>
    decreases n,
{
    if n <= 0 {
        seq![]
    } else {
        let e = entries[n - 1];
        listed(entries, focus, players, card_only, n - 1) + if card_only && !e.inside_card {
            seq![]
        } else {
            match first_player_with_id(players, e.id, 0) {
                Some(k) => seq![(
                    players[k].player_id@,
                    players[k].name@,
                    opt_view(players[k].image_url),
                    focus == n - 1,
                    done_results(players[k].rs()).len() as usize,
                    players[k].group_index,
                    e.queue,
                    crate::handler::division_view(players[k].division),
                )],
                None => seq![],
            }
        }
    }
}

fn find_player_ref(players: &Vec<&Player>, id: &str) -> (r: Option<usize>)
    ensures
        match first_player_with_id(derefs(players@), id@, 0) {
            Some(k) => r matches Some(i) && i as int == k && i < players@.len(),
            None => r is None,
        },
{
    proof {
        lemma_first_player(derefs(players@), id@, 0);
    }
    let mut i: usize = 0;
    while i < players.len()
        invariant
            i <= players@.len(),
            first_player_with_id(derefs(players@), id@, 0) == first_player_with_id(derefs(players@), id@, i as int),
        decreases players@.len() - i,
    {
        if str_eq(players[i].player_id.as_str(), id) {
            return Some(i);
        }
        i = i + 1;
    }
    None
}

pub proof fn lemma_first_player(s: Seq<Player>, id: Seq<char>, from: int)
    requires
        0 <= from,
    ensures
        first_player_with_id(s, id, from) matches Some(k) ==> from <= k < s.len() && s[k].player_id@ == id,
    decreases s.len() - from,
{
    if from < s.len() && s[from].player_id@ != id {
        lemma_first_player(s, id, from + 1);
    }
}

impl PlayerManager {
    /// The player in focus, among the given players.
    pub fn player<'a>(&self, players: Vec<&'a Player>) -> (r: Option<&'a Player>)
        requires
            self.has_focus(),
        ensures
            match first_player_with_id(derefs(players@), self.entries()[self.focus()].id, 0) {
                Some(k) => r == Some(players@[k]),
                None => r is None,
            },
    {
        let queue = &self.managed_players[self.focused];
        match find_player_ref(&players, queue.player_id.as_str()) {
            Some(i) => Some(players[i]),
            None => None,
        }
    }

    /// The player in focus, among the given players, to change.
    pub fn player_mut<'a>(&self, players: &'a mut Vec<Player>) -> (r: Option<&'a mut Player>)
        requires
            self.has_focus(),
        ensures
            match first_player_with_id(old(players)@, self.entries()[self.focus()].id, 0) {
                Some(k) => r matches Some(x) && *x == old(players)@[k] && final(players)@ == old(players)@.update(k, *final(x)),
                None => r is None && final(players)@ == old(players)@,
            },
    {
        let queue = &self.managed_players[self.focused];
        proof {
            lemma_first_player(players@, queue.player_id@, 0);
            assert(queue.player_id@ == self.entries()[self.focus()].id);
        }
        let mut i: usize = 0;
        while i < players.len()
            invariant
                i <= players@.len(),
                players@ == old(players)@,
                queue.player_id@ == self.entries()[self.focus()].id,
                first_player_with_id(players@, queue.player_id@, 0) == first_player_with_id(players@, queue.player_id@, i as int),
            decreases players@.len() - i,
        {
            if str_eq(players[i].player_id.as_str(), queue.player_id.as_str()) {
                proof {
                    assert(first_player_with_id(players@, queue.player_id@, i as int) == Some(i as int));
                }
                return Some(&mut players[i]);
            }
            i = i + 1;
        }
        None
    }

    /// The given players who are on the card, in their order.
    /// The ids of the players on the card, in order.
    pub fn card_id_list(&self) -> (ids: Vec<String>)
        ensures
            ids@.map_values(|s: String| s@) == card_of(self.entries()).map_values(|e: QueueEntry| e.id),
    {
        let card = self.internal_card();
        let mut ids: Vec<String> = Vec::new();
        let mut j: usize = 0;
        while j < card.len()
            invariant
                j <= card@.len(),
                card@.map_values(|p: &PlayerWithQueue| p@) =~= card_of(self.entries()),
                ids@.map_values(|s: String| s@) =~= card_of(self.entries()).take(j as int).map_values(|e: QueueEntry| e.id),
            decreases card@.len() - j,
        {
            let ghost before = ids@.map_values(|s: String| s@);
            ids.push(card[j].player_id.clone());
            proof {
                assert(card_of(self.entries())[j as int] == card@[j as int]@);
                assert(card_of(self.entries()).take(j + 1) =~= card_of(self.entries()).take(j as int).push(card_of(self.entries())[j as int]));
                assert(ids@.map_values(|s: String| s@) =~= before.push(card@[j as int]@.id));
            }
            j = j + 1;
        }
        proof {
            assert(card_of(self.entries()).take(card@.len() as int) =~= card_of(self.entries()));
        }
        ids
    }

    pub fn card<'a>(&self, players: Vec<&'a Player>) -> (r: Vec<&'a Player>)
        ensures
            derefs(r@) == derefs(players@).filter(|p: Player| card_of(self.entries()).map_values(|e: QueueEntry| e.id).contains(p.player_id@)),
    {
        let ids = self.card_id_list();
        let ghost all = derefs(players@);
        let ghost pred = |p: Player| card_of(self.entries()).map_values(|e: QueueEntry| e.id).contains(p.player_id@);
        let mut out: Vec<&'a Player> = Vec::new();
        let mut i: usize = 0;
        while i < players.len()
            invariant
                i <= players@.len(),
                all == derefs(players@),
                pred == (|p: Player| card_of(self.entries()).map_values(|e: QueueEntry| e.id).contains(p.player_id@)),
                ids@.map_values(|s: String| s@) =~= card_of(self.entries()).map_values(|e: QueueEntry| e.id),
                derefs(out@) =~= all.take(i as int).filter(pred),
            decreases players@.len() - i,
        {
            proof {
                assert(all.take(i + 1) =~= all.take(i as int).push(all[i as int]));
                all.take(i as int).lemma_filter_push(all[i as int], pred);
            }
            if contains_id(&ids, players[i].player_id.as_str()) {
                out.push(players[i]);
            }
            proof {
                assert(derefs(out@) =~= all.take(i + 1).filter(pred));
            }
            i = i + 1;
        }
        proof {
            assert(all.take(all.len() as int) =~= all);
        }
        out
    }

    /// For each managed player, in order, the first of the given players with
    /// its id.
    pub fn players<'a>(&self, players: Vec<&'a Player>) -> (r: Vec<&'a Player>)
        ensures
            derefs(r@) == matched_players(self.entries(), derefs(players@)),
    {
        let ghost s = self.entries();
        let mut out: Vec<&'a Player> = Vec::new();
        let mut i: usize = 0;
        while i < self.managed_players.len()
            invariant
                i <= self.managed_players@.len(),
                s == self.entries(),
                derefs(out@) =~= matched_players(s.take(i as int), derefs(players@)),
            decreases self.managed_players@.len() - i,
        {
            proof {
                assert(s.take(i + 1).drop_last() =~= s.take(i as int));
                assert(s.take(i + 1).last() == self.managed_players@[i as int]@);
            }
            match find_player_ref(&players, self.managed_players[i].player_id.as_str()) {
                Some(k) => {
                    out.push(players[k]);
                },
                None => {},
            }
            proof {
                assert(derefs(out@) =~= matched_players(s.take(i + 1), derefs(players@)));
            }
            i = i + 1;
        }
        proof {
            assert(s.take(s.len() as int) =~= s);
        }
        out
    }

    /// The listing of the managed players (of those on the card, with
    /// `card_only`) for the interface.
    pub fn dto_players(&self, players: Vec<&Player>, card_only: bool) -> (r: Vec<crate::dto::Player>)
        ensures
            r@.map_values(|d: crate::dto::Player| dto_view(d)) == listed(self.entries(), self.focus(), derefs(players@), card_only, self.entries().len() as int),
    {
        let ghost s = self.entries();
        let mut out: Vec<crate::dto::Player> = Vec::new();
        let mut i: usize = 0;
        while i < self.managed_players.len()
            invariant
                i <= self.managed_players@.len(),
                s == self.entries(),
                s.len() == self.managed_players@.len(),
                out@.map_values(|d: crate::dto::Player| dto_view(d)) =~= listed(s, self.focus(), derefs(players@), card_only, i as int),
            decreases self.managed_players@.len() - i,
        {
            let entry = &self.managed_players[i];
            proof {
                assert(s[i as int] == entry@);
            }
            let ghost before = out@.map_values(|d: crate::dto::Player| dto_view(d));
            if !card_only || entry.inside_card {
                match find_player_ref(&players, entry.player_id.as_str()) {
                    Some(k) => {
                        let mut dto = crate::dto::Player::from(players[k]);
                        if self.focused == i {
                            dto.focused = true;
                        }
                        dto.queue = entry.queue_position;
                        out.push(dto);
                        proof {
                            assert(out@.map_values(|d: crate::dto::Player| dto_view(d)) =~= before.push(dto_view(dto)));
                        }
                    },
                    None => {},
                }
            }
            proof {
                assert(out@.map_values(|d: crate::dto::Player| dto_view(d)) =~= listed(s, self.focus(), derefs(players@), card_only, i + 1));
            }
            i = i + 1;
        }
        out
    }
}

} // verus!
