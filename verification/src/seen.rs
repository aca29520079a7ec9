//! The last time somebody was seen.

use crate::context::{Context, ContextView};
use crate::error::{Error, ErrorView};
use crate::event::{involves_of, text_result, Event, EventView};
use crate::format::{Decode, Encode};
use crate::stream::{
    all_events, decode_all, decoded_whole, event_views, item_views, resolve, resolved,
};
use vstd::prelude::*;

verus! {

/// The place, among the first `n` events, of the latest one that involves
/// `nick`: an event takes the place of the choice so far only where its
/// stamp is greater, so of several at the latest instant the first stays.
pub open spec fn last_seen(
    events: Seq<EventView>,
    stamps: Seq<i64>,
    nick: Seq<char>,
    n: nat,
) -> Option<int>
    decreases n,
{
    if n == 0 {
        None
    } else {
        let so_far = last_seen(events, stamps, nick, (n - 1) as nat);
        if involves_of(events[n - 1].ty, nick) && (match so_far {
            Some(k) => stamps[n - 1] > stamps[k],
            None => true,
        }) {
            Some(n - 1)
        } else {
            so_far
        }
    }
}

/// What `last_seen` chooses is one of the first `n` events, and one that
/// involves the nick.
pub proof fn law_last_seen_involves_the_nick(
    events: Seq<EventView>,
    stamps: Seq<i64>,
    nick: Seq<char>,
    n: nat,
)
    ensures
        match last_seen(events, stamps, nick, n) {
            Some(k) => 0 <= k < n && involves_of(events[k].ty, nick),
            None => true,
        },
    decreases n,
{
    if n > 0 {
        law_last_seen_involves_the_nick(events, stamps, nick, (n - 1) as nat);
    }
}

/// The place of the latest event that involves `nick`, given the stamp of
/// each event.
pub fn find_last_seen(events: &Vec<Event>, stamps: &Vec<i64>, nick: &str) -> (r: Option<usize>)
    requires
        stamps.len() == events.len(),
    ensures
        match r {
            Some(k) => last_seen(event_views(events@), stamps@, nick@, events@.len()) == Some(
                k as int,
            ) && k < events.len(),
            None => last_seen(event_views(events@), stamps@, nick@, events@.len()) is None,
        },
{
    let mut best: Option<usize> = None;
    let mut i: usize = 0;
    let ghost views = event_views(events@);
    while i < events.len()
        invariant
            i <= events.len(),
            stamps.len() == events.len(),
            views == event_views(events@),
            match best {
                Some(k) => last_seen(views, stamps@, nick@, i as nat) == Some(k as int) && k < i,
                None => last_seen(views, stamps@, nick@, i as nat) is None,
            },
        decreases events.len() - i,
    {
        assert(views[i as int] == events@[i as int]@);
        if events[i].ty.involves(nick) {
            let later = match best {
                Some(k) => stamps[i] > stamps[k],
                None => true,
            };
            if later {
                best = Some(i);
            }
        }
        i += 1;
    }
    best
}

/// The output of `seen` for the events of a log and their stamps: the
/// line of the chosen event, or nothing where no event involves the nick.
pub open spec fn seen_line<E: Encode>(
    encoder: E,
    context: ContextView,
    events: Seq<EventView>,
    stamps: Seq<i64>,
    nick: Seq<char>,
) -> Result<Seq<char>, ErrorView> {
    match last_seen(events, stamps, nick, events.len()) {
        Some(k) => encoder.encoded(context, events[k]),
        None => Ok(Seq::empty()),
    }
}

/// Writes the latest event of the log that involves `nick`. A line that
/// decodes to an error ends the run with that error. Each event's time is
/// resolved once.
pub fn seen<D: Decode, E: Encode>(
    nick: &str,
    context: &Context,
    input: &str,
    decoder: &D,
    encoder: &E,
) -> (r: Result<String, Error>)
    ensures
        decoded_whole(*decoder, context@, input@) is Err ==> text_result(r) == Err::<
            Seq<char>,
            ErrorView,
        >(decoded_whole(*decoder, context@, input@)->Err_0),
        decoded_whole(*decoder, context@, input@) is Ok ==> exists|stamps: Seq<i64>| #[trigger]
            resolved(decoded_whole(*decoder, context@, input@)->Ok_0, stamps) && text_result(r)
                == seen_line(
                *encoder,
                context@,
                decoded_whole(*decoder, context@, input@)->Ok_0,
                stamps,
                nick@,
            ),
{
    let items = decode_all(context, input, decoder);
    let ghost whole = decoded_whole(*decoder, context@, input@);
    assert(item_views(items@).len() == items@.len());
    match all_events(items) {
        Err(e) => Err(e),
        Ok(events) => {
            let stamps = resolve(&events);
            let ghost views = event_views(events@);
            let r = match find_last_seen(&events, &stamps, nick) {
                Some(k) => {
                    assert(views[k as int] == events@[k as int]@);
                    encoder.encode(context, &events[k])
                },
                None => Ok(String::new()),
            };
            proof {
                let witness = stamps@;
                assert(whole == Ok::<Seq<EventView>, ErrorView>(views));
                assert(resolved(whole->Ok_0, witness) && text_result(r) == seen_line(
                    *encoder,
                    context@,
                    whole->Ok_0,
                    witness,
                    nick@,
                ));
            }
            r
        },
    }
}


/// What a run of `seen` remembers between two lines: the nick that is
/// looked for, and the best event so far with its stamp.
pub struct Seen {
    nick: String,
    last: Option<(i64, Event)>,
}

/// The best event so far, with its stamp, after one more event: the new one
/// where it involves the nick and is later than the best so far, or the
/// first to involve it.
pub open spec fn best_after(
    best: Option<(i64, EventView)>,
    nick: Seq<char>,
    event: EventView,
    stamp: i64,
) -> Option<(i64, EventView)> {
    if involves_of(event.ty, nick) && (match best {
        Some(b) => stamp > b.0,
        None => true,
    }) {
        Some((stamp, event))
    } else {
        best
    }
}

impl Seen {
    /// The nick that is looked for.
    pub closed spec fn nick(&self) -> Seq<char> {
        self.nick@
    }

    /// The best event so far, with its stamp.
    pub closed spec fn best(&self) -> Option<(i64, EventView)> {
        match self.last {
            Some(b) => Some((b.0, b.1@)),
            None => None,
        }
    }

    /// A run that has seen nothing yet.
    pub fn new(nick: &str) -> (s: Seen)
        ensures
            s.nick() == nick@,
            s.best() is None,
    {
        Seen { nick: crate::text::owned(nick), last: None }
    }

    /// Takes the next event of the log, whose time resolves to `stamp`.
    pub fn observe(&mut self, event: Event, stamp: i64)
        ensures
            final(self).nick() == old(self).nick(),
            final(self).best() == best_after(old(self).best(), old(self).nick(), event@, stamp),
    {
        if event.ty.involves(self.nick.as_str()) {
            let later = match &self.last {
                Some(b) => stamp > b.0,
                None => true,
            };
            if later {
                self.last = Some((stamp, event));
            }
        }
    }

    /// The event that the run ends with: the latest that involves the
    /// nick, if any does.
    pub fn finish(self) -> (r: Option<Event>)
        ensures
            match r {
                Some(e) => self.best() is Some && self.best().unwrap().1 == e@,
                None => self.best() is None,
            },
    {
        match self.last {
            Some(b) => Some(b.1),
            None => None,
        }
    }
}

/// The best event after the first `n` events, taken one by one.
pub open spec fn best_of(events: Seq<EventView>, stamps: Seq<i64>, nick: Seq<char>, n: nat) -> Option<
    (i64, EventView),
>
    decreases n,
{
    if n == 0 {
        None
    } else {
        best_after(
            best_of(events, stamps, nick, (n - 1) as nat),
            nick,
            events[n - 1],
            stamps[n - 1],
        )
    }
}

/// Taking the events one by one ends with the event at the place that
/// `last_seen` gives.
pub proof fn law_one_by_one_is_last_seen(
    events: Seq<EventView>,
    stamps: Seq<i64>,
    nick: Seq<char>,
    n: nat,
)
    ensures
        best_of(events, stamps, nick, n) == match last_seen(events, stamps, nick, n) {
            Some(k) => Some((stamps[k], events[k])),
            None => None,
        },
    decreases n,
{
    if n > 0 {
        law_one_by_one_is_last_seen(events, stamps, nick, (n - 1) as nat);
    }
}

} // verus!
