//! Removal of repeated events that stand close together in time.
//!
//! Only a window of recent events is kept, so the input should be in
//! order of time. Two events are the same where they agree in kind, fields
//! and channel; their times are not compared.

use crate::ageset::{has_key, holds, marks, AgeSet, Aged, Keyed, Mark};
use crate::context::Context;
use crate::error::Error;
use crate::event::{signature_of, text_result, Event, EventView, TypeView};
use crate::format::{Decode, Encode};
use crate::stream::{
    decode_events, decoded_events, encode_all, encoded_events, event_views, in_order, resolve,
    resolved,
};
use vstd::prelude::*;

verus! {

/// The age, in the unit of the stamps, beyond which an entry leaves the
/// window where the caller has no better value.
pub const DEFAULT_MAX_AGE: i64 = 5000;

/// An entry stamped `stamp` is older than `max_age` when the newest event
/// is stamped `newest`. The difference is taken in the integers, so it
/// never wraps.
pub open spec fn too_old(newest: i64, stamp: i64, max_age: i64) -> bool {
    newest - stamp > max_age
}

/// The window after its oldest entries have gone: entries leave from the
/// front for as long as the front is too old, and everything behind the
/// first that stays is kept.
pub open spec fn pruned(window: Seq<Mark>, newest: i64, max_age: i64) -> Seq<Mark>
    decreases window.len(),
{
    if window.len() > 0 && too_old(newest, window[0].0, max_age) {
        pruned(window.drop_first(), newest, max_age)
    } else {
        window
    }
}

/// Whether an event that arrives at `stamp` is let through: it is, unless
/// the pruned window holds its signature.
pub open spec fn lets_through(window: Seq<Mark>, event: EventView, stamp: i64, max_age: i64) -> bool {
    !holds(pruned(window, stamp, max_age), signature_of(event))
}

/// The window after an event has arrived at `stamp`: pruned, and with the
/// event at its end if it was let through.
pub open spec fn next_window(window: Seq<Mark>, event: EventView, stamp: i64, max_age: i64) -> Seq<
    Mark,
> {
    let kept = pruned(window, stamp, max_age);
    if holds(kept, signature_of(event)) {
        kept
    } else {
        kept.push((stamp, signature_of(event)))
    }
}

/// The window after the first `n` events.
pub open spec fn window_after(
    events: Seq<EventView>,
    stamps: Seq<i64>,
    max_age: i64,
    n: nat,
) -> Seq<Mark>
    decreases n,
{
    if n == 0 {
        Seq::empty()
    } else {
        next_window(
            window_after(events, stamps, max_age, (n - 1) as nat),
            events[n - 1],
            stamps[n - 1],
            max_age,
        )
    }
}

/// Whether the event at place `i` is let through.
pub open spec fn emitted(events: Seq<EventView>, stamps: Seq<i64>, max_age: i64, i: int) -> bool {
    lets_through(window_after(events, stamps, max_age, i as nat), events[i], stamps[i], max_age)
}

/// The events among the first `n` that are let through, in order.
pub open spec fn deduped(events: Seq<EventView>, stamps: Seq<i64>, max_age: i64, n: nat) -> Seq<
    EventView,
>
    decreases n,
{
    if n == 0 {
        Seq::empty()
    } else if emitted(events, stamps, max_age, n - 1) {
        deduped(events, stamps, max_age, (n - 1) as nat).push(events[n - 1])
    } else {
        deduped(events, stamps, max_age, (n - 1) as nat)
    }
}

/// Cutting off the first `k` entries, all of them too old, before one that
/// is not, is pruning.
pub proof fn lemma_cut_is_pruned(window: Seq<Mark>, k: int, newest: i64, max_age: i64)
    requires
        0 <= k <= window.len(),
        forall|i: int| 0 <= i < k ==> too_old(newest, (#[trigger] window[i]).0, max_age),
        k < window.len() ==> !too_old(newest, window[k].0, max_age),
    ensures
        pruned(window, newest, max_age) == window.skip(k),
    decreases k,
{
    if k == 0 {
        assert(window.skip(0) =~= window);
    } else {
        let rest = window.drop_first();
        assert forall|i: int| 0 <= i < k - 1 implies too_old(
            newest,
            (#[trigger] rest[i]).0,
            max_age,
        ) by {
            assert(rest[i] == window[i + 1]);
        }
        lemma_cut_is_pruned(rest, k - 1, newest, max_age);
        assert(rest.skip(k - 1) =~= window.skip(k));
    }
}

/// An entry that is not too old stays in the window when it is pruned.
pub proof fn lemma_young_entries_stay(window: Seq<Mark>, mark: Mark, newest: i64, max_age: i64)
    requires
        window.contains(mark),
        !too_old(newest, mark.0, max_age),
    ensures
        pruned(window, newest, max_age).contains(mark),
    decreases window.len(),
{
    if window.len() > 0 && too_old(newest, window[0].0, max_age) {
        let i = choose|i: int| 0 <= i < window.len() && window[i] == mark;
        assert(i > 0);
        assert(window.drop_first()[i - 1] == mark);
        lemma_young_entries_stay(window.drop_first(), mark, newest, max_age);
    }
}

/// A window holds a signature exactly where one of its entries has it
/// for a key.
proof fn lemma_holds_by_key(entries: Seq<Aged>, signature: (TypeView, Option<Seq<char>>))
    ensures
        has_key(entries, signature) == holds(marks(entries), signature),
{
    if has_key(entries, signature) {
        let i = choose|i: int| 0 <= i < entries.len() && (#[trigger] entries[i]).key() == signature;
        assert(marks(entries)[i].1 == signature);
    }
    if holds(marks(entries), signature) {
        let i = choose|i: int|
            0 <= i < marks(entries).len() && (#[trigger] marks(entries)[i]).1 == signature;
        assert(entries[i].key() == signature);
    }
}

/// The state of a run of deduplication: the window and the age at which
/// entries leave it.
pub struct Dedup {
    backlog: AgeSet<Aged>,
    max_age: i64,
}

impl Dedup {
    /// The marks of the events in the window, oldest first.
    pub closed spec fn window(&self) -> Seq<Mark> {
        marks(self.backlog.entries())
    }

    /// The window's index is in step with its queue.
    pub closed spec fn wf(&self) -> bool {
        self.backlog.wf()
    }

    /// The age at which entries leave the window.
    pub closed spec fn max_age(&self) -> i64 {
        self.max_age
    }

    /// A run with an empty window.
    pub fn new(max_age: i64) -> (d: Dedup)
        ensures
            d.wf(),
            d.window() == Seq::<Mark>::empty(),
            d.max_age() == max_age,
    {
        let backlog = AgeSet::new();
        assert(marks(backlog.entries()) =~= Seq::empty());
        Dedup { backlog, max_age }
    }

    /// Takes the next event, which arrives at `stamp`. First the entries
    /// that are now too old leave the window. Then the event is let
    /// through and remembered, unless the window holds its like.
    pub fn offer(&mut self, event: &Event, stamp: i64) -> (emit: bool)
        requires
            old(self).wf(),
        ensures
            final(self).wf(),
            emit == lets_through(old(self).window(), event@, stamp, old(self).max_age()),
            final(self).window() == next_window(
                old(self).window(),
                event@,
                stamp,
                old(self).max_age(),
            ),
            final(self).max_age() == old(self).max_age(),
    {
        let max_age = self.max_age;
        let ghost before = self.backlog.entries();
        let kill = |a: &Aged| -> (dead: bool)
            ensures
                dead == too_old(stamp, a.stamp, max_age),
            { stamp as i128 - a.stamp as i128 > max_age as i128 };
        self.backlog.prune(kill);
        proof {
            let k = choose|k: int|
                0 <= k <= before.len() && #[trigger] before.skip(k) == self.backlog.entries()
                    && crate::ageset::cut_at(kill, before, k);
            assert forall|i: int| 0 <= i < k implies too_old(
                stamp,
                (#[trigger] marks(before)[i]).0,
                max_age,
            ) by {
                assert(kill.ensures((&before[i],), true));
            }
            if k < before.len() {
                assert(kill.ensures((&before[k],), false));
            }
            lemma_cut_is_pruned(marks(before), k, stamp, max_age);
            assert(marks(before).skip(k) =~= marks(before.skip(k)));
        }
        let ghost kept = self.backlog.entries();
        let aged = Aged { stamp, event: event.duplicate() };
        proof {
            lemma_holds_by_key(kept, aged.key());
        }
        if self.backlog.contains(&aged) {
            false
        } else {
            self.backlog.push(aged);
            proof {
                assert(marks(kept.push(aged)) =~= marks(kept).push(aged@));
            }
            true
        }
    }
}

/// The events that deduplication lets through, given the stamp of each.
pub fn dedup_events(events: Vec<Event>, stamps: &Vec<i64>, max_age: i64) -> (kept: Vec<Event>)
    requires
        stamps.len() == events.len(),
    ensures
        event_views(kept@) == deduped(event_views(events@), stamps@, max_age, events@.len()),
{
    let ghost all = event_views(events@);
    let mut state = Dedup::new(max_age);
    let mut kept: Vec<Event> = Vec::new();
    let mut i: usize = 0;
    proof {
        assert(event_views(kept@) =~= Seq::empty());
    }
    for event in it: events.into_iter()
        invariant
            event_views(it.seq()) == all,
            stamps.len() == all.len(),
            i == it.index(),
            state.wf(),
            state.max_age() == max_age,
            state.window() == window_after(all, stamps@, max_age, i as nat),
            event_views(kept@) == deduped(all, stamps@, max_age, i as nat),
    {
        let ghost before = event_views(kept@);
        proof {
            assert(all[i as int] == event@);
        }
        if state.offer(&event, stamps[i]) {
            kept.push(event);
            proof {
                assert(event_views(kept@) =~= before.push(event@));
            }
        }
        i += 1;
    }
    kept
}

/// Removes repeated events from a log. Lines that decode to an error are
/// dropped; the first event that cannot be written ends the run with that
/// error. Each event's time is resolved once, on arrival.
pub fn dedup<D: Decode, E: Encode>(
    context: &Context,
    input: &str,
    decoder: &D,
    encoder: &E,
    max_age: i64,
) -> (r: Result<String, Error>)
    ensures
        exists|stamps: Seq<i64>| #[trigger]
            resolved(decoded_events(*decoder, context@, input@), stamps) && text_result(r)
                == encoded_events(
                *encoder,
                context@,
                deduped(
                    decoded_events(*decoder, context@, input@),
                    stamps,
                    max_age,
                    decoded_events(*decoder, context@, input@).len(),
                ),
                deduped(
                    decoded_events(*decoder, context@, input@),
                    stamps,
                    max_age,
                    decoded_events(*decoder, context@, input@).len(),
                ).len(),
            ),
{
    let events = decode_events(context, input, decoder);
    let stamps = resolve(&events);
    let ghost all = event_views(events@);
    let kept = dedup_events(events, &stamps, max_age);
    let r = encode_all(context, &kept, encoder);
    proof {
        let witness = stamps@;
        let out = deduped(all, witness, max_age, all.len());
        assert(all == decoded_events(*decoder, context@, input@));
        assert(event_views(kept@) == out);
        assert(resolved(all, witness) && text_result(r) == encoded_events(
            *encoder,
            context@,
            out,
            out.len(),
        ));
    }
    r
}

/// Of two events with the same signature that arrive in order of time and
/// no further apart than the maximal age, the second is not let through if
/// the first was.
pub proof fn law_near_duplicate_is_dropped(
    events: Seq<EventView>,
    stamps: Seq<i64>,
    max_age: i64,
    i: int,
    j: int,
)
    requires
        stamps.len() == events.len(),
        in_order(stamps),
        0 <= i < j < events.len(),
        signature_of(events[i]) == signature_of(events[j]),
        stamps[j] - stamps[i] <= max_age,
        emitted(events, stamps, max_age, i),
    ensures
        !emitted(events, stamps, max_age, j),
{
    let mark = (stamps[i], signature_of(events[i]));
    lemma_emitted_stays_in_window(events, stamps, max_age, i, j, j);
    let window = window_after(events, stamps, max_age, j as nat);
    lemma_young_entries_stay(window, mark, stamps[j], max_age);
    let kept = pruned(window, stamps[j], max_age);
    let at = choose|k: int| 0 <= k < kept.len() && kept[k] == mark;
    assert(kept[at].1 == signature_of(events[j]));
}

/// An event that was let through is still in the window when a later
/// event arrives, as long as it is not too old for the event at `j`.
pub proof fn lemma_emitted_stays_in_window(
    events: Seq<EventView>,
    stamps: Seq<i64>,
    max_age: i64,
    i: int,
    m: int,
    j: int,
)
    requires
        stamps.len() == events.len(),
        in_order(stamps),
        0 <= i < m <= j < events.len(),
        stamps[j] - stamps[i] <= max_age,
        emitted(events, stamps, max_age, i),
    ensures
        window_after(events, stamps, max_age, m as nat).contains(
            (stamps[i], signature_of(events[i])),
        ),
    decreases m - i,
{
    let mark = (stamps[i], signature_of(events[i]));
    let before = window_after(events, stamps, max_age, (m - 1) as nat);
    let kept = pruned(before, stamps[m - 1], max_age);
    let after = window_after(events, stamps, max_age, m as nat);
    if m == i + 1 {
        assert(after == kept.push(mark));
        assert(after[after.len() - 1] == mark);
    } else {
        lemma_emitted_stays_in_window(events, stamps, max_age, i, m - 1, j);
        lemma_young_entries_stay(before, mark, stamps[m - 1], max_age);
        let at = choose|k: int| 0 <= k < kept.len() && kept[k] == mark;
        if holds(kept, signature_of(events[m - 1])) {
            assert(after == kept);
        } else {
            assert(after == kept.push((stamps[m - 1], signature_of(events[m - 1]))));
            assert(after[at] == mark);
        }
    }
}


/// The stamps of the window never go down from front to back, and none is
/// greater than `newest`.
pub open spec fn window_in_order(window: Seq<Mark>, newest: i64) -> bool {
    &&& forall|i: int, j: int| 0 <= i <= j < window.len() ==> window[i].0 <= window[j].0
    &&& forall|i: int| 0 <= i < window.len() ==> (#[trigger] window[i]).0 <= newest
}

/// Pruning a window whose stamps are in order leaves a window whose
/// stamps are in order and none of whose entries is too old.
proof fn lemma_pruned_is_recent(window: Seq<Mark>, newest: i64, max_age: i64)
    requires
        forall|i: int, j: int| 0 <= i <= j < window.len() ==> window[i].0 <= window[j].0,
    ensures
        forall|i: int, j: int|
            0 <= i <= j < pruned(window, newest, max_age).len() ==> pruned(
                window,
                newest,
                max_age,
            )[i].0 <= pruned(window, newest, max_age)[j].0,
        forall|i: int|
            0 <= i < pruned(window, newest, max_age).len() ==> !too_old(
                newest,
                (#[trigger] pruned(window, newest, max_age)[i]).0,
                max_age,
            ),
        forall|i: int|
            0 <= i < pruned(window, newest, max_age).len() ==> window.contains(
                #[trigger] pruned(window, newest, max_age)[i],
            ),
    decreases window.len(),
{
    if window.len() > 0 && too_old(newest, window[0].0, max_age) {
        let rest = window.drop_first();
        assert forall|i: int, j: int| 0 <= i <= j < rest.len() implies rest[i].0 <= rest[j].0 by {
            assert(rest[i] == window[i + 1] && rest[j] == window[j + 1]);
        }
        lemma_pruned_is_recent(rest, newest, max_age);
        let kept = pruned(rest, newest, max_age);
        assert forall|i: int| 0 <= i < kept.len() implies window.contains(#[trigger] kept[i]) by {
            let k = choose|k: int| 0 <= k < rest.len() && rest[k] == kept[i];
            assert(window[k + 1] == kept[i]);
        }
    } else {
        assert forall|i: int| 0 <= i < window.len() implies !too_old(
            newest,
            (#[trigger] window[i]).0,
            max_age,
        ) by {
            assert(window[0].0 <= window[i].0);
        }
    }
}

/// Of a log in order of time the window holds, after every event, only
/// what came within the maximal age of that event.
pub proof fn law_window_holds_recent_entries_only(
    events: Seq<EventView>,
    stamps: Seq<i64>,
    max_age: i64,
    n: nat,
)
    requires
        stamps.len() == events.len(),
        in_order(stamps),
        1 <= n <= events.len(),
        max_age >= 0,
    ensures
        window_in_order(window_after(events, stamps, max_age, n), stamps[n - 1]),
        forall|i: int|
            0 <= i < window_after(events, stamps, max_age, n).len() ==> !too_old(
                stamps[n - 1],
                (#[trigger] window_after(events, stamps, max_age, n)[i]).0,
                max_age,
            ),
    decreases n,
{
    let before = window_after(events, stamps, max_age, (n - 1) as nat);
    let newest = stamps[n - 1];
    if n > 1 {
        law_window_holds_recent_entries_only(events, stamps, max_age, (n - 1) as nat);
        assert(stamps[n - 2] <= newest);
    }
    lemma_pruned_is_recent(before, newest, max_age);
    let kept = pruned(before, newest, max_age);
    assert forall|i: int| 0 <= i < kept.len() implies (#[trigger] kept[i]).0 <= newest by {
        let k = choose|k: int| 0 <= k < before.len() && before[k] == kept[i];
        assert(before[k].0 <= stamps[n - 2]);
    }
}


/// Of two events with the same signature, given in order of time and no
/// further apart than the maximal age, only the first is let through.
pub proof fn law_only_the_first_of_a_pair_is_let_through(
    first: EventView,
    second: EventView,
    t1: i64,
    t2: i64,
    max_age: i64,
)
    requires
        signature_of(first) == signature_of(second),
        t1 <= t2,
        t2 - t1 <= max_age,
    ensures
        deduped(seq![first, second], seq![t1, t2], max_age, 2) == seq![first],
{
    let events = seq![first, second];
    let stamps = seq![t1, t2];
    assert(window_after(events, stamps, max_age, 0) =~= Seq::empty());
    assert(pruned(Seq::<Mark>::empty(), t1, max_age) =~= Seq::empty());
    assert(emitted(events, stamps, max_age, 0));
    law_near_duplicate_is_dropped(events, stamps, max_age, 0, 1);
    reveal_with_fuel(deduped, 3);
    assert(deduped(events, stamps, max_age, 2) =~= seq![first]);
}

} // verus!
