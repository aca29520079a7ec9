//! Sorting of a whole log by time.
//!
//! The log is read into memory as a whole. The order is that of the
//! instants the times resolve to, not that of the kinds of time, and events
//! of the same instant stay in the order in which they came.

use crate::context::Context;
use crate::error::Error;
use crate::event::{text_result, Event, EventView};
use crate::format::{Decode, Encode};
use crate::stream::{
    decode_events, decoded_events, encode_all, encoded_events, event_views, in_order, resolve,
    resolved,
};
use vstd::prelude::*;
use vstd::relations::{sorted_by, total_ordering};

verus! {

/// A stamp with the place of its event in the input.
pub type Key = (i64, usize);

/// The first key is not behind the second: its stamp is smaller, or the
/// stamps are the same and its place is not the later one.
pub open spec fn not_behind(a: Key, b: Key) -> bool {
    a.0 < b.0 || (a.0 == b.0 && a.1 <= b.1)
}

/// `not_behind` as a relation.
pub open spec fn key_order() -> spec_fn(Key, Key) -> bool {
    |a: Key, b: Key| not_behind(a, b)
}

/// The stamp of every event with its place.
pub open spec fn keyed(stamps: Seq<i64>) -> Seq<Key> {
    Seq::new(stamps.len(), |i: int| (stamps[i], i as usize))
}

/// The events in the order of their keys.
pub open spec fn sorted_events(events: Seq<EventView>, stamps: Seq<i64>) -> Seq<EventView> {
    keyed(stamps).sort_by(key_order()).map_values(|k: Key| events[k.1 as int])
}

/// `<[T]>::sort` on pairs of integers: afterwards the slice holds what it
/// held before, in ascending order. Pairs are ordered by their first part
/// and, where that is the same, by their second.
#[verifier::external_body]
fn sort_keys(keys: &mut Vec<Key>)
    ensures
        final(keys)@.to_multiset() == old(keys)@.to_multiset(),
        sorted_by(final(keys)@, key_order()),
{
    keys.sort()
}

/// The keys in ascending order.
pub fn sort_ranks(keys: Vec<Key>) -> (sorted: Vec<Key>)
    ensures
        sorted@ == keys@.sort_by(key_order()),
{
    let mut sorted = keys;
    sort_keys(&mut sorted);
    proof {
        lemma_key_order_is_total();
        keys@.lemma_sort_by_ensures(key_order());
        vstd::seq_lib::lemma_sorted_unique(sorted@, keys@.sort_by(key_order()), key_order());
    }
    sorted
}

/// The order of the keys puts any two of them one way or the other, and
/// never in a circle.
pub proof fn lemma_key_order_is_total()
    ensures
        total_ordering(key_order()),
{
    let r = key_order();
    assert(vstd::relations::reflexive(r));
    assert(vstd::relations::antisymmetric(r)) by {
        assert forall|x: Key, y: Key| #[trigger] r(x, y) && #[trigger] r(y, x) implies x == y by {
            assert(not_behind(x, y) && not_behind(y, x));
        }
    }
    assert(vstd::relations::transitive(r)) by {
        assert forall|x: Key, y: Key, z: Key| #[trigger] r(x, y) && #[trigger] r(y, z) implies r(
            x,
            z,
        ) by {
            assert(not_behind(x, y) && not_behind(y, z));
        }
    }
    assert(vstd::relations::strongly_connected(r)) by {
        assert forall|x: Key, y: Key| #[trigger] r(x, y) || #[trigger] r(y, x) by {
            assert(not_behind(x, y) || not_behind(y, x));
        }
    }
}

/// Sorting keys brings no key in that was not there: every place of the
/// sorted keys is a place of the keys.
pub proof fn lemma_sorted_keeps_places(keys: Seq<Key>)
    requires
        forall|i: int| 0 <= i < keys.len() ==> (#[trigger] keys[i]).1 == i,
    ensures
        keys.sort_by(key_order()).len() == keys.len(),
        forall|k: int|
            0 <= k < keys.len() ==> (#[trigger] keys.sort_by(key_order())[k]).1 < keys.len(),
{
    broadcast use vstd::seq_lib::group_to_multiset_ensures;

    lemma_key_order_is_total();
    keys.lemma_sort_by_ensures(key_order());
    let sorted = keys.sort_by(key_order());
    assert(sorted.len() == keys.len()) by {
        assert(sorted.to_multiset().len() == keys.to_multiset().len());
    }
    assert forall|k: int| 0 <= k < keys.len() implies (#[trigger] sorted[k]).1 < keys.len() by {
        assert(sorted.to_multiset().contains(sorted[k]));
        assert(keys.to_multiset().contains(sorted[k]));
        assert(keys.contains(sorted[k]));
    }
}

/// The events in the order of their stamps, ties in the order of arrival.
pub fn sort_events(events: &Vec<Event>, stamps: &Vec<i64>) -> (out: Vec<Event>)
    requires
        stamps.len() == events.len(),
    ensures
        event_views(out@) == sorted_events(event_views(events@), stamps@),
{
    let mut keys: Vec<Key> = Vec::new();
    let mut i: usize = 0;
    while i < stamps.len()
        invariant
            i <= stamps.len(),
            keys.len() == i,
            forall|k: int| 0 <= k < i ==> #[trigger] keys@[k] == (stamps@[k], k as usize),
        decreases stamps.len() - i,
    {
        keys.push((stamps[i], i));
        i += 1;
    }
    assert(keys@ =~= keyed(stamps@));
    let keys = sort_ranks(keys);
    proof {
        lemma_sorted_keeps_places(keyed(stamps@));
    }
    let mut out: Vec<Event> = Vec::new();
    let mut j: usize = 0;
    let ghost views = event_views(events@);
    while j < keys.len()
        invariant
            j <= keys.len(),
            out.len() == j,
            views == event_views(events@),
            forall|k: int| 0 <= k < keys@.len() ==> (#[trigger] keys@[k]).1 < events@.len(),
            forall|k: int| 0 <= k < j ==> (#[trigger] out@[k])@ == views[keys@[k].1 as int],
        decreases keys.len() - j,
    {
        let place = keys[j].1;
        assert(views[place as int] == events@[place as int]@);
        out.push(events[place].duplicate());
        j += 1;
    }
    assert(event_views(out@) =~= sorted_events(views, stamps@));
    out
}

/// Sorts a log by time. Lines that decode to an error are dropped; the
/// first event that cannot be written ends the run with that error. Each
/// event's time is resolved once.
pub fn sort<D: Decode, E: Encode>(context: &Context, input: &str, decoder: &D, encoder: &E) -> (r:
    Result<String, Error>)
    ensures
        exists|stamps: Seq<i64>| #[trigger]
            resolved(decoded_events(*decoder, context@, input@), stamps) && text_result(r)
                == encoded_events(
                *encoder,
                context@,
                sorted_events(decoded_events(*decoder, context@, input@), stamps),
                sorted_events(decoded_events(*decoder, context@, input@), stamps).len(),
            ),
{
    let events = decode_events(context, input, decoder);
    let stamps = resolve(&events);
    let out = sort_events(&events, &stamps);
    let r = encode_all(context, &out, encoder);
    proof {
        let witness = stamps@;
        let all = event_views(events@);
        let sorted = sorted_events(all, witness);
        assert(event_views(out@) == sorted);
        assert(resolved(all, witness) && text_result(r) == encoded_events(
            *encoder,
            context@,
            sorted,
            sorted.len(),
        ));
    }
    r
}

/// Sorting a log that is in order of time already gives the same log.
pub proof fn law_sorting_sorted_changes_nothing(events: Seq<EventView>, stamps: Seq<i64>)
    requires
        stamps.len() == events.len(),
        stamps.len() <= usize::MAX,
        in_order(stamps),
    ensures
        sorted_events(events, stamps) == events,
{
    let keys = keyed(stamps);
    lemma_key_order_is_total();
    keys.lemma_sort_by_ensures(key_order());
    assert(sorted_by(keys, key_order())) by {
        assert forall|i: int, j: int| 0 <= i < j < keys.len() implies #[trigger] key_order()(
            keys[i],
            keys[j],
        ) by {
            assert(stamps[i] <= stamps[j]);
        }
    }
    vstd::seq_lib::lemma_sorted_unique(keys, keys.sort_by(key_order()), key_order());
    assert(sorted_events(events, stamps) =~= events);
}

/// The sorted log holds the events of the log, each as often, and its
/// stamps never go down.
pub proof fn law_sorted_is_in_order(stamps: Seq<i64>)
    requires
        stamps.len() <= usize::MAX,
    ensures
        keyed(stamps).sort_by(key_order()).to_multiset() =~= keyed(stamps).to_multiset(),
        forall|i: int, j: int|
            0 <= i < j < keyed(stamps).sort_by(key_order()).len() ==> (#[trigger] keyed(
                stamps,
            ).sort_by(key_order())[i]).0 <= (#[trigger] keyed(stamps).sort_by(key_order())[j]).0,
{
    lemma_key_order_is_total();
    keyed(stamps).lemma_sort_by_ensures(key_order());
    let sorted = keyed(stamps).sort_by(key_order());
    assert forall|i: int, j: int| 0 <= i < j < sorted.len() implies (#[trigger] sorted[i]).0 <= (
    #[trigger] sorted[j]).0 by {
        assert(key_order()(sorted[i], sorted[j]));
    }
}

} // verus!
