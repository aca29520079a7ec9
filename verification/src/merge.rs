//! Merging of logs that are each in order of time into one that is.
//!
//! Every source has a cursor. In each round the heads of all sources that
//! have something left are looked at, the earliest is written, and its
//! cursor moves on. A line that decodes to an error is dropped from its
//! source for good and is never a head.

use crate::context::{Context, ContextView};
use crate::error::Error;
use crate::event::{earlier, text_result, Event, EventView, Time};
use crate::format::{Decode, Encode};
use crate::stream::{decode_events, decoded_events, encode_all, encoded_events, event_views};
use bit_set::BitSet;
use vstd::multiset::Multiset;
use vstd::prelude::*;

verus! {

/// The set of the sources that have nothing left: a `BitSet` of the
/// bit-set crate. It is kept behind this type because its own type has a
/// parameter bound by a trait of that crate; all that is known of it is what
/// the three functions below say.
#[verifier::external_body]
pub struct Spent {
    bits: BitSet,
}

/// The numbers that the set holds.
pub uninterp spec fn members(set: Spent) -> Set<nat>;

/// The number of bits that the set was made for: smaller numbers go in
/// without the set having to grow.
pub uninterp spec fn room(set: Spent) -> nat;

/// `BitSet::with_capacity`: an empty set with bits for the numbers below
/// `n`.
#[verifier::external_body]
fn bits_for(n: usize) -> (set: Spent)
    ensures
        members(set) == Set::<nat>::empty(),
        room(set) == n,
{
    Spent { bits: BitSet::with_capacity(n) }
}

/// `BitSet::insert`: the number is in the set afterwards, and nothing else
/// changes. Returns whether it was new. A number below the set's room
/// needs no growth.
#[verifier::external_body]
fn bits_insert(set: &mut Spent, value: usize) -> (fresh: bool)
    requires
        value < room(*old(set)),
    ensures
        members(*final(set)) == members(*old(set)).insert(value as nat),
        room(*final(set)) == room(*old(set)),
        fresh == !members(*old(set)).contains(value as nat),
{
    set.bits.insert(value)
}

/// `BitSet::contains`: whether the number is in the set.
#[verifier::external_body]
fn bits_contain(set: &Spent, value: usize) -> (r: bool)
    ensures
        r == members(*set).contains(value as nat),
{
    set.bits.contains(value)
}

/// The head among the first `n`: the first of them that is there, unless
/// a later one is known to be earlier than the choice so far. Heads that
/// are absent stand for sources with nothing left.
pub open spec fn earliest(heads: Seq<Option<Time>>, n: nat) -> Option<int>
    decreases n,
{
    if n == 0 {
        None
    } else {
        let so_far = earliest(heads, (n - 1) as nat);
        match heads[n - 1] {
            None => so_far,
            Some(time) => match so_far {
                None => Some(n - 1),
                Some(best) => if earlier(time, heads[best].unwrap()) {
                    Some(n - 1)
                } else {
                    so_far
                },
            },
        }
    }
}

/// What `earliest` chooses is one of the first `n` heads, and present.
pub proof fn lemma_earliest_is_a_head(heads: Seq<Option<Time>>, n: nat)
    requires
        n <= heads.len(),
    ensures
        match earliest(heads, n) {
            Some(k) => 0 <= k < n && heads[k] is Some,
            None => forall|i: int| 0 <= i < n ==> heads[i] is None,
        },
    decreases n,
{
    if n > 0 {
        lemma_earliest_is_a_head(heads, (n - 1) as nat);
    }
}

/// Chooses among the heads of the sources the one to write next; `None`
/// where no source has anything left.
pub fn choose_earliest(heads: &Vec<Option<Time>>) -> (r: Option<usize>)
    ensures
        match r {
            Some(k) => earliest(heads@, heads@.len()) == Some(k as int),
            None => earliest(heads@, heads@.len()) is None,
        },
{
    let mut best: Option<usize> = None;
    let mut i: usize = 0;
    while i < heads.len()
        invariant
            i <= heads.len(),
            match best {
                Some(k) => earliest(heads@, i as nat) == Some(k as int),
                None => earliest(heads@, i as nat) is None,
            },
        decreases heads.len() - i,
    {
        proof {
            lemma_earliest_is_a_head(heads@, i as nat);
        }
        match heads[i] {
            None => {},
            Some(time) => match best {
                None => {
                    best = Some(i);
                },
                Some(k) => {
                    let other = heads[k].unwrap();
                    if time.is_earlier(&other) {
                        best = Some(i);
                    }
                },
            },
        }
        i += 1;
    }
    best
}


/// The sources, each as the views of its events.
pub open spec fn source_views(sources: Seq<Vec<Event>>) -> Seq<Seq<EventView>> {
    sources.map_values(|s: Vec<Event>| event_views(s@))
}

/// Every cursor stands within its source or at its end.
pub open spec fn cursors_fit(sources: Seq<Seq<EventView>>, pos: Seq<usize>) -> bool {
    &&& pos.len() == sources.len()
    &&& forall|i: int| 0 <= i < pos.len() ==> #[trigger] pos[i] <= sources[i].len()
}

/// The time of the event under each cursor; nothing for a source whose
/// cursor stands at its end.
pub open spec fn head_times(sources: Seq<Seq<EventView>>, pos: Seq<usize>) -> Seq<Option<Time>> {
    Seq::new(
        sources.len(),
        |i: int|
            if pos[i] < sources[i].len() {
                Some(sources[i][pos[i] as int].time)
            } else {
                None
            },
    )
}

/// The number of events behind the cursors of the first `n` sources.
pub open spec fn left(sources: Seq<Seq<EventView>>, pos: Seq<usize>, n: nat) -> nat
    decreases n,
{
    if n == 0 {
        0
    } else {
        left(sources, pos, (n - 1) as nat) + (sources[n - 1].len() - pos[n - 1]) as nat
    }
}

/// The cursors with the one of source `k` moved on by one event.
pub open spec fn moved_on(pos: Seq<usize>, k: int) -> Seq<usize> {
    pos.update(k, (pos[k] + 1) as usize)
}

/// The events written from the cursors on, in at most `fuel` rounds: in
/// each round the event under the cursor that `earliest` chooses.
pub open spec fn merge_from(sources: Seq<Seq<EventView>>, pos: Seq<usize>, fuel: nat) -> Seq<
    EventView,
>
    decreases fuel,
{
    if fuel == 0 {
        Seq::empty()
    } else {
        match earliest(head_times(sources, pos), sources.len()) {
            None => Seq::empty(),
            Some(k) => seq![sources[k][pos[k] as int]] + merge_from(
                sources,
                moved_on(pos, k),
                (fuel - 1) as nat,
            ),
        }
    }
}

/// All cursors at the start.
pub open spec fn at_start(n: nat) -> Seq<usize> {
    Seq::new(n, |i: int| 0usize)
}

/// The merged log: every event of every source, each round the earliest
/// head first, and among heads of which none is earlier that of the first
/// source.
pub open spec fn merged(sources: Seq<Seq<EventView>>) -> Seq<EventView> {
    merge_from(
        sources,
        at_start(sources.len()),
        left(sources, at_start(sources.len()), sources.len()),
    )
}

/// Moving the cursor of one source on takes one from the count of what
/// is left.
pub proof fn lemma_left_after_move(
    sources: Seq<Seq<EventView>>,
    pos: Seq<usize>,
    k: int,
    n: nat,
)
    requires
        cursors_fit(sources, pos),
        0 <= k < sources.len(),
        pos[k] < sources[k].len() <= usize::MAX,
        n <= sources.len(),
    ensures
        cursors_fit(sources, moved_on(pos, k)),
        left(sources, moved_on(pos, k), n) == if k < n {
            left(sources, pos, n) - 1
        } else {
            left(sources, pos, n) as int
        },
        k < n ==> left(sources, pos, n) >= 1,
    decreases n,
{
    if n > 0 {
        lemma_left_after_move(sources, pos, k, (n - 1) as nat);
    }
}

/// The times of the events under the cursors.
fn heads_of(sources: &Vec<Vec<Event>>, pos: &Vec<usize>, spent: &mut Spent) -> (heads: Vec<
    Option<Time>,
>)
    requires
        cursors_fit(source_views(sources@), pos@),
        room(*old(spent)) == sources@.len(),
        forall|i: nat| #[trigger]
            members(*old(spent)).contains(i) ==> i < sources@.len() && pos@[i as int]
                == sources@[i as int]@.len(),
    ensures
        heads@ == head_times(source_views(sources@), pos@),
        room(*final(spent)) == sources@.len(),
        forall|i: nat| #[trigger]
            members(*final(spent)).contains(i) ==> i < sources@.len() && pos@[i as int]
                == sources@[i as int]@.len(),
{
    let mut heads: Vec<Option<Time>> = Vec::new();
    let mut i: usize = 0;
    let ghost views = source_views(sources@);
    while i < sources.len()
        invariant
            i <= sources.len(),
            views == source_views(sources@),
            cursors_fit(views, pos@),
            heads@.len() == i,
            forall|j: int| 0 <= j < i ==> #[trigger] heads@[j] == head_times(views, pos@)[j],
            room(*spent) == sources@.len(),
            forall|j: nat| #[trigger]
                members(*spent).contains(j) ==> j < sources@.len() && pos@[j as int]
                    == sources@[j as int]@.len(),
        decreases sources.len() - i,
    {
        assert(views[i as int] == event_views(sources@[i as int]@));
        assert(pos@[i as int] <= views[i as int].len());
        if bits_contain(spent, i) {
            heads.push(None);
        } else if pos[i] < sources[i].len() {
            assert(views[i as int][pos@[i as int] as int] == sources@[i as int]@[pos@[i as int] as int]@);
            heads.push(Some(sources[i][pos[i]].time));
        } else {
            let _ = bits_insert(spent, i);
            heads.push(None);
        }
        i += 1;
    }
    assert(heads@ =~= head_times(views, pos@));
    heads
}

/// Merges the sources into one sequence of events.
pub fn merge_events(sources: &Vec<Vec<Event>>) -> (out: Vec<Event>)
    ensures
        event_views(out@) == merged(source_views(sources@)),
{
    let n = sources.len();
    let ghost views = source_views(sources@);
    let mut pos: Vec<usize> = Vec::new();
    while pos.len() < n
        invariant
            pos.len() <= n,
            forall|i: int| 0 <= i < pos.len() ==> #[trigger] pos@[i] == 0,
        decreases n - pos.len(),
    {
        pos.push(0);
    }
    assert(pos@ =~= at_start(n as nat));
    let mut spent = bits_for(n);
    let mut out: Vec<Event> = Vec::new();
    assert(event_views(out@) =~= Seq::empty());
    loop
        invariant
            n == sources.len(),
            views == source_views(sources@),
            cursors_fit(views, pos@),
            room(spent) == n,
            forall|i: nat| #[trigger]
                members(spent).contains(i) ==> i < n && pos@[i as int] == sources@[i as int]@.len(),
            event_views(out@) + merge_from(views, pos@, left(views, pos@, n as nat)) == merged(
                views,
            ),
        ensures
            event_views(out@) == merged(views),
        decreases left(views, pos@, n as nat),
    {
        let heads = heads_of(sources, &pos, &mut spent);
        proof {
            lemma_earliest_is_a_head(heads@, n as nat);
        }
        match choose_earliest(&heads) {
            None => {
                assert(merge_from(views, pos@, left(views, pos@, n as nat)) =~= Seq::empty());
                assert(event_views(out@) + Seq::<EventView>::empty() =~= event_views(out@));
                break ;
            },
            Some(k) => {
                let ghost before = event_views(out@);
                let ghost old_pos = pos@;
                assert(views[k as int] == event_views(sources@[k as int]@));
                assert(head_times(views, pos@)[k as int] is Some);
                assert(views[k as int].len() == sources@[k as int]@.len());
                assert(pos@[k as int] < sources@[k as int]@.len());
                assert(sources@[k as int].len() <= usize::MAX);
                let event = sources[k][pos[k]].duplicate();
                proof {
                    lemma_left_after_move(views, old_pos, k as int, n as nat);
                }
                out.push(event);
                pos.set(k, pos[k] + 1);
                proof {
                    let rest = merge_from(views, pos@, left(views, pos@, n as nat));
                    assert(pos@ == moved_on(old_pos, k as int));
                    assert(event_views(out@) =~= before.push(event@));
                    assert(before.push(event@) + rest =~= before + (seq![event@] + rest));
                }
            },
        }
    }
    out
}


/// The events behind the cursors of the first `n` sources, as a bag.
pub open spec fn pool(sources: Seq<Seq<EventView>>, pos: Seq<usize>, n: nat) -> Multiset<EventView>
    decreases n,
{
    if n == 0 {
        Multiset::empty()
    } else {
        pool(sources, pos, (n - 1) as nat).add(
            sources[n - 1].skip(pos[n - 1] as int).to_multiset(),
        )
    }
}

/// No source is longer than a cursor can count.
pub open spec fn countable(sources: Seq<Seq<EventView>>) -> bool {
    forall|i: int| 0 <= i < sources.len() ==> (#[trigger] sources[i]).len() <= usize::MAX
}

/// A sequence holds its first element and what the rest holds.
proof fn lemma_first_and_rest(s: Seq<EventView>)
    requires
        s.len() > 0,
    ensures
        s.to_multiset() =~= s.drop_first().to_multiset().insert(s.first()),
{
    broadcast use vstd::multiset::group_multiset_axioms;
    broadcast use vstd::seq_lib::group_to_multiset_ensures;

    assert(s.remove(0) =~= s.drop_first());
    vstd::seq_lib::to_multiset_remove(s, 0);
    assert(s.to_multiset().contains(s[0]));
}

/// Where every cursor among the first `n` stands at the end, nothing is
/// left behind them.
proof fn lemma_pool_of_spent(sources: Seq<Seq<EventView>>, pos: Seq<usize>, n: nat)
    requires
        cursors_fit(sources, pos),
        n <= sources.len(),
        forall|i: int| 0 <= i < n ==> #[trigger] pos[i] == sources[i].len(),
    ensures
        pool(sources, pos, n) =~= Multiset::empty(),
    decreases n,
{
    if n > 0 {
        lemma_pool_of_spent(sources, pos, (n - 1) as nat);
        assert(sources[n - 1].skip(pos[n - 1] as int) =~= Seq::empty());
        assert(Seq::<EventView>::empty().to_multiset() =~= Multiset::empty()) by {
            broadcast use vstd::seq_lib::group_to_multiset_ensures;

        }
    }
}

/// Where nothing is left to count, every cursor stands at the end.
proof fn lemma_nothing_left(sources: Seq<Seq<EventView>>, pos: Seq<usize>, n: nat)
    requires
        cursors_fit(sources, pos),
        n <= sources.len(),
        left(sources, pos, n) == 0,
    ensures
        forall|i: int| 0 <= i < n ==> #[trigger] pos[i] == sources[i].len(),
    decreases n,
{
    if n > 0 {
        lemma_nothing_left(sources, pos, (n - 1) as nat);
    }
}

/// Moving the cursor of source `k` on takes the event under it out of
/// the pool and nothing else.
proof fn lemma_pool_after_move(sources: Seq<Seq<EventView>>, pos: Seq<usize>, k: int, n: nat)
    requires
        cursors_fit(sources, pos),
        0 <= k < sources.len(),
        pos[k] < sources[k].len() <= usize::MAX,
        n <= sources.len(),
    ensures
        pool(sources, pos, n) =~= if k < n {
            pool(sources, moved_on(pos, k), n).insert(sources[k][pos[k] as int])
        } else {
            pool(sources, moved_on(pos, k), n)
        },
    decreases n,
{
    broadcast use vstd::multiset::group_multiset_axioms;

    if n > 0 {
        lemma_pool_after_move(sources, pos, k, (n - 1) as nat);
        if k == n - 1 {
            let s = sources[k].skip(pos[k] as int);
            assert(s.first() == sources[k][pos[k] as int]);
            assert(s.drop_first() =~= sources[k].skip(pos[k] + 1));
            lemma_first_and_rest(s);
        }
    }
}

/// What is written from the cursors on is, as a bag, what stood behind
/// them.
proof fn lemma_merge_is_the_pool(sources: Seq<Seq<EventView>>, pos: Seq<usize>, fuel: nat)
    requires
        cursors_fit(sources, pos),
        countable(sources),
        fuel >= left(sources, pos, sources.len()),
    ensures
        merge_from(sources, pos, fuel).to_multiset() =~= pool(sources, pos, sources.len()),
    decreases fuel,
{
    broadcast use vstd::multiset::group_multiset_axioms;

    let n = sources.len();
    let heads = head_times(sources, pos);
    lemma_earliest_is_a_head(heads, n);
    assert(Seq::<EventView>::empty().to_multiset() =~= Multiset::empty()) by {
        broadcast use vstd::seq_lib::group_to_multiset_ensures;

    }
    if fuel == 0 {
        lemma_nothing_left(sources, pos, n);
        lemma_pool_of_spent(sources, pos, n);
    } else {
        match earliest(heads, n) {
            None => {
                assert forall|i: int| 0 <= i < n implies #[trigger] pos[i] == sources[i].len() by {
                    assert(heads[i] is None);
                }
                lemma_pool_of_spent(sources, pos, n);
            },
            Some(k) => {
                assert(heads[k] is Some);
                let e = sources[k][pos[k] as int];
                let rest = merge_from(sources, moved_on(pos, k), (fuel - 1) as nat);
                lemma_left_after_move(sources, pos, k, n);
                lemma_pool_after_move(sources, pos, k, n);
                lemma_merge_is_the_pool(sources, moved_on(pos, k), (fuel - 1) as nat);
                let whole = seq![e] + rest;
                assert(whole.first() == e);
                assert(whole.drop_first() =~= rest);
                lemma_first_and_rest(whole);
            },
        }
    }
}

/// The merged log holds every event of every source, each as often as the
/// sources hold it, and nothing else.
pub proof fn law_merge_keeps_every_event(sources: Seq<Seq<EventView>>)
    requires
        countable(sources),
    ensures
        merged(sources).to_multiset() =~= pool(
            sources,
            at_start(sources.len()),
            sources.len(),
        ),
{
    let start = at_start(sources.len());
    lemma_merge_is_the_pool(sources, start, left(sources, start, sources.len()));
}

/// Every time of the sequence is absolute.
pub open spec fn all_absolute(events: Seq<EventView>) -> bool {
    forall|i: int| 0 <= i < events.len() ==> (#[trigger] events[i]).time is Timestamp
}

/// No event of the sequence is known to be earlier than one before it.
pub open spec fn ascending(events: Seq<EventView>) -> bool {
    forall|i: int, j: int|
        0 <= i < j < events.len() ==> !earlier((#[trigger] events[j]).time, (
            #[trigger] events[i]).time)
}

/// The absolute time of an event that has one.
pub open spec fn stamp_of(event: EventView) -> i64 {
    match event.time {
        Time::Timestamp(t) => t,
        _ => 0,
    }
}

/// Every source holds absolute times only and is in order of time.
pub open spec fn sorted_sources(sources: Seq<Seq<EventView>>) -> bool {
    forall|i: int|
        0 <= i < sources.len() ==> all_absolute(#[trigger] sources[i]) && ascending(sources[i])
}

/// Among absolute times, no head is earlier than the one that `earliest`
/// chooses.
proof fn lemma_earliest_is_least(heads: Seq<Option<Time>>, n: nat)
    requires
        n <= heads.len(),
        forall|i: int| 0 <= i < n && heads[i] is Some ==> (#[trigger] heads[i]).unwrap() is Timestamp,
    ensures
        match earliest(heads, n) {
            Some(k) => forall|i: int|
                0 <= i < n && heads[i] is Some ==> !earlier(
                    (#[trigger] heads[i]).unwrap(),
                    heads[k].unwrap(),
                ),
            None => true,
        },
    decreases n,
{
    if n > 0 {
        lemma_earliest_is_least(heads, (n - 1) as nat);
        lemma_earliest_is_a_head(heads, (n - 1) as nat);
    }
}

/// From sorted sources, what is written from the cursors on is in order
/// of time and not before `floor`, if nothing behind the cursors is.
proof fn lemma_merge_ascends(
    sources: Seq<Seq<EventView>>,
    pos: Seq<usize>,
    fuel: nat,
    floor: i64,
)
    requires
        cursors_fit(sources, pos),
        countable(sources),
        sorted_sources(sources),
        forall|i: int, j: int|
            0 <= i < sources.len() && pos[i] <= j < sources[i].len() ==> floor <= stamp_of(
                #[trigger] sources[i][j],
            ),
    ensures
        all_absolute(merge_from(sources, pos, fuel)),
        ascending(merge_from(sources, pos, fuel)),
        forall|x: int|
            0 <= x < merge_from(sources, pos, fuel).len() ==> floor <= stamp_of(
                #[trigger] merge_from(sources, pos, fuel)[x],
            ),
    decreases fuel,
{
    let n = sources.len();
    let heads = head_times(sources, pos);
    if fuel > 0 {
        lemma_earliest_is_a_head(heads, n);
        assert forall|i: int| 0 <= i < n && heads[i] is Some implies (
        #[trigger] heads[i]).unwrap() is Timestamp by {
            assert(all_absolute(sources[i]));
            assert(sources[i][pos[i] as int].time is Timestamp);
        }
        lemma_earliest_is_least(heads, n);
        match earliest(heads, n) {
            None => {},
            Some(k) => {
                assert(heads[k] is Some);
                assert(all_absolute(sources[k]));
                let e = sources[k][pos[k] as int];
                let next = moved_on(pos, k);
                lemma_left_after_move(sources, pos, k, n);
                assert forall|i: int, j: int|
                    0 <= i < sources.len() && next[i] <= j < sources[i].len() implies stamp_of(e)
                    <= stamp_of(#[trigger] sources[i][j]) by {
                    assert(all_absolute(sources[i]) && ascending(sources[i]));
                    let h = pos[i] as int;
                    assert(heads[i] is Some);
                    assert(!earlier(heads[i].unwrap(), heads[k].unwrap()));
                    assert(sources[i][h].time is Timestamp);
                    assert(sources[i][j].time is Timestamp);
                    if h < j {
                        assert(!earlier(sources[i][j].time, sources[i][h].time));
                    }
                }
                lemma_merge_ascends(sources, next, (fuel - 1) as nat, stamp_of(e));
                let rest = merge_from(sources, next, (fuel - 1) as nat);
                let whole = seq![e] + rest;
                assert(whole == merge_from(sources, pos, fuel));
                assert forall|x: int| 0 <= x < whole.len() implies (#[trigger] whole[x]).time
                    is Timestamp && floor <= stamp_of(whole[x]) by {
                    if x > 0 {
                        assert(whole[x] == rest[x - 1]);
                    }
                }
                assert forall|x: int, y: int| 0 <= x < y < whole.len() implies !earlier(
                    (#[trigger] whole[y]).time,
                    (#[trigger] whole[x]).time,
                ) by {
                    assert(whole[y] == rest[y - 1]);
                    if x > 0 {
                        assert(whole[x] == rest[x - 1]);
                    }
                }
            },
        }
    }
}

/// Merging sources that hold absolute times and are each in order of time
/// gives a log in order of time.
pub proof fn law_merge_of_sorted_is_sorted(sources: Seq<Seq<EventView>>)
    requires
        countable(sources),
        sorted_sources(sources),
    ensures
        all_absolute(merged(sources)),
        ascending(merged(sources)),
{
    let start = at_start(sources.len());
    lemma_merge_ascends(sources, start, left(sources, start, sources.len()), i64::MIN);
}


/// What each of the texts decodes to, without the errors.
pub open spec fn decoded_sources<D: Decode>(
    decoder: D,
    context: ContextView,
    inputs: Seq<&str>,
) -> Seq<Seq<EventView>> {
    inputs.map_values(|text: &str| decoded_events(decoder, context, text@))
}

/// Merges several logs, each in order of time, into one. Lines that
/// decode to an error are dropped; the first event that cannot be written
/// ends the run with that error.
pub fn merge<D: Decode, E: Encode>(
    context: &Context,
    inputs: &[&str],
    decoder: &D,
    encoder: &E,
) -> (r: Result<String, Error>)
    ensures
        text_result(r) == encoded_events(
            *encoder,
            context@,
            merged(decoded_sources(*decoder, context@, inputs@)),
            merged(decoded_sources(*decoder, context@, inputs@)).len(),
        ),
{
    let mut sources: Vec<Vec<Event>> = Vec::new();
    let mut i: usize = 0;
    while i < inputs.len()
        invariant
            i <= inputs.len(),
            sources.len() == i,
            forall|k: int|
                0 <= k < i ==> event_views((#[trigger] sources@[k])@) == decoded_events(
                    *decoder,
                    context@,
                    inputs@[k]@,
                ),
        decreases inputs.len() - i,
    {
        sources.push(decode_events(context, inputs[i], decoder));
        i += 1;
    }
    assert(source_views(sources@) =~= decoded_sources(*decoder, context@, inputs@));
    let out = merge_events(&sources);
    encode_all(context, &out, encoder)
}


/// Where each event written from the cursors on comes from: its source
/// and its place in that source, in the order of writing.
pub open spec fn origins(sources: Seq<Seq<EventView>>, pos: Seq<usize>, fuel: nat) -> Seq<
    (int, int),
>
    decreases fuel,
{
    if fuel == 0 {
        Seq::empty()
    } else {
        match earliest(head_times(sources, pos), sources.len()) {
            None => Seq::empty(),
            Some(k) => seq![(k, pos[k] as int)] + origins(
                sources,
                moved_on(pos, k),
                (fuel - 1) as nat,
            ),
        }
    }
}

/// The events written are those at their origins, no origin lies before
/// its source's cursor, and of two events of one source the one written
/// first stands first in the source.
pub open spec fn keeps_order(
    sources: Seq<Seq<EventView>>,
    pos: Seq<usize>,
    written: Seq<EventView>,
    from: Seq<(int, int)>,
) -> bool {
    &&& from.len() == written.len()
    &&& forall|i: int|
        0 <= i < from.len() ==> {
            &&& 0 <= (#[trigger] from[i]).0 < sources.len()
            &&& pos[from[i].0] <= from[i].1 < sources[from[i].0].len()
            &&& written[i] == sources[from[i].0][from[i].1]
        }
    &&& forall|i: int, j: int|
        0 <= i < j < from.len() && (#[trigger] from[i]).0 == (#[trigger] from[j]).0 ==> from[i].1
            < from[j].1
}

/// What is written from the cursors on keeps the order of each source.
proof fn lemma_merge_keeps_order(sources: Seq<Seq<EventView>>, pos: Seq<usize>, fuel: nat)
    requires
        cursors_fit(sources, pos),
        countable(sources),
    ensures
        keeps_order(sources, pos, merge_from(sources, pos, fuel), origins(sources, pos, fuel)),
    decreases fuel,
{
    let n = sources.len();
    let heads = head_times(sources, pos);
    if fuel > 0 {
        lemma_earliest_is_a_head(heads, n);
        match earliest(heads, n) {
            None => {},
            Some(k) => {
                assert(heads[k] is Some);
                let next = moved_on(pos, k);
                lemma_left_after_move(sources, pos, k, n);
                lemma_merge_keeps_order(sources, next, (fuel - 1) as nat);
                let rest = merge_from(sources, next, (fuel - 1) as nat);
                let rest_from = origins(sources, next, (fuel - 1) as nat);
                let written = seq![sources[k][pos[k] as int]] + rest;
                let from = seq![(k, pos[k] as int)] + rest_from;
                assert(written == merge_from(sources, pos, fuel));
                assert(from == origins(sources, pos, fuel));
                assert forall|i: int| 0 <= i < from.len() implies {
                    &&& 0 <= (#[trigger] from[i]).0 < sources.len()
                    &&& pos[from[i].0] <= from[i].1 < sources[from[i].0].len()
                    &&& written[i] == sources[from[i].0][from[i].1]
                } by {
                    if i > 0 {
                        assert(from[i] == rest_from[i - 1]);
                        assert(written[i] == rest[i - 1]);
                        assert(pos[from[i].0] <= next[from[i].0]);
                    }
                }
                assert forall|i: int, j: int|
                    0 <= i < j < from.len() && (#[trigger] from[i]).0 == (
                    #[trigger] from[j]).0 implies from[i].1 < from[j].1 by {
                    assert(from[j] == rest_from[j - 1]);
                    if i > 0 {
                        assert(from[i] == rest_from[i - 1]);
                    } else {
                        assert(next[k] == pos[k] + 1);
                    }
                }
            },
        }
    }
}

/// The merged log keeps the order of each source: every event of it
/// stands at some place of some source, and of two events of the same
/// source the one that stands first there comes first in the merged log.
pub proof fn law_merge_keeps_the_order_of_each_source(sources: Seq<Seq<EventView>>)
    requires
        countable(sources),
    ensures
        keeps_order(
            sources,
            at_start(sources.len()),
            merged(sources),
            origins(
                sources,
                at_start(sources.len()),
                left(sources, at_start(sources.len()), sources.len()),
            ),
        ),
{
    let start = at_start(sources.len());
    lemma_merge_keeps_order(sources, start, left(sources, start, sources.len()));
}

} // verus!
