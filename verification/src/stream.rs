//! From a whole input to the events in it and from events back to text:
//! the steps that every operation on a log begins and ends with.

use crate::context::{Context, ContextView};
use crate::error::{Error, ErrorView};
use crate::event::{resolves_to, text_result, Event, EventView, Time};
use crate::format::{texts, Decode, Encode};
use crate::text::push_char;
use vstd::prelude::*;
use vstd::string::StringExecFns;

verus! {

/// The lines of a text. Each ends with its line feed, but for a last line
/// that the text leaves open. An empty text has no line.
pub open spec fn lines(text: Seq<char>) -> Seq<Seq<char>>
    decreases text.len(),
{
    if text.len() == 0 {
        Seq::empty()
    } else {
        let before = lines(text.drop_last());
        if before.len() > 0 && (before.last().len() == 0 || before.last().last() != '\n') {
            before.update(before.len() - 1, before.last().push(text.last()))
        } else {
            before.push(seq![text.last()])
        }
    }
}

/// A decoded item by its view.
pub open spec fn result_view(r: Result<Event, Error>) -> Result<EventView, ErrorView> {
    match r {
        Ok(e) => Ok(e@),
        Err(e) => Err(e@),
    }
}

/// Decoded items, each by its view.
pub open spec fn item_views(items: Seq<Result<Event, Error>>) -> Seq<Result<EventView, ErrorView>> {
    items.map_values(|r: Result<Event, Error>| result_view(r))
}

/// Events, each by its view.
pub open spec fn event_views(events: Seq<Event>) -> Seq<EventView> {
    events.map_values(|e: Event| e@)
}

/// What the first `n` lines decode to, in order: an event or an error for
/// each line that the decoder does not pass over.
pub open spec fn decoded_items<D: Decode>(
    decoder: D,
    context: ContextView,
    lines: Seq<Seq<char>>,
    n: nat,
) -> Seq<Result<EventView, ErrorView>>
    decreases n,
{
    if n == 0 {
        Seq::empty()
    } else {
        let before = decoded_items(decoder, context, lines, (n - 1) as nat);
        match decoder.decoded(context, lines[n - 1]) {
            Some(item) => before.push(item),
            None => before,
        }
    }
}

/// What a whole text decodes to.
pub open spec fn decoded_text<D: Decode>(decoder: D, context: ContextView, text: Seq<char>) -> Seq<
    Result<EventView, ErrorView>,
> {
    decoded_items(decoder, context, lines(text), lines(text).len())
}

/// The events among the first `n` items, in order; errors are left out.
pub open spec fn successes(items: Seq<Result<EventView, ErrorView>>, n: nat) -> Seq<EventView>
    decreases n,
{
    if n == 0 {
        Seq::empty()
    } else {
        match items[n - 1] {
            Ok(e) => successes(items, (n - 1) as nat).push(e),
            Err(_) => successes(items, (n - 1) as nat),
        }
    }
}

/// The events before the first error among the first `n` items, or that
/// error.
pub open spec fn all_or_first_error(items: Seq<Result<EventView, ErrorView>>, n: nat) -> Result<
    Seq<EventView>,
    ErrorView,
>
    decreases n,
{
    if n == 0 {
        Ok(Seq::empty())
    } else {
        match all_or_first_error(items, (n - 1) as nat) {
            Err(e) => Err(e),
            Ok(events) => match items[n - 1] {
                Ok(e) => Ok(events.push(e)),
                Err(e) => Err(e),
            },
        }
    }
}

/// The text of the first `n` events, one after the other, or the first
/// error that writing one of them gives.
pub open spec fn encoded_events<E: Encode>(
    encoder: E,
    context: ContextView,
    events: Seq<EventView>,
    n: nat,
) -> Result<Seq<char>, ErrorView>
    decreases n,
{
    if n == 0 {
        Ok(Seq::empty())
    } else {
        match encoded_events(encoder, context, events, (n - 1) as nat) {
            Err(e) => Err(e),
            Ok(text) => match encoder.encoded(context, events[n - 1]) {
                Ok(line) => Ok(text + line),
                Err(e) => Err(e),
            },
        }
    }
}

/// The stamps never go down.
pub open spec fn in_order(stamps: Seq<i64>) -> bool {
    forall|i: int, j: int| 0 <= i <= j < stamps.len() ==> stamps[i] <= stamps[j]
}

/// The time of every event resolves to the stamp of the same index.
pub open spec fn resolved(events: Seq<EventView>, stamps: Seq<i64>) -> bool {
    &&& stamps.len() == events.len()
    &&& forall|i: int| 0 <= i < events.len() ==> resolves_to(events[i].time, #[trigger] stamps[i])
}

/// Cuts a text into its lines.
pub fn split_lines(text: &str) -> (out: Vec<String>)
    ensures
        texts(out@) == lines(text@),
{
    let mut out: Vec<String> = Vec::new();
    let mut current = String::new();
    let mut open = false;
    proof {
        assert(text@.take(0) =~= Seq::empty());
        assert(texts(out@) =~= Seq::empty());
    }
    for c in it: text.chars()
        invariant
            it.seq() == text@,
            open ==> lines(text@.take(it.index() as int)) == texts(out@).push(current@),
            open ==> current@.len() > 0 && current@.last() != '\n',
            !open ==> lines(text@.take(it.index() as int)) == texts(out@),
            !open ==> current@.len() == 0,
            !open && out.len() > 0 ==> out@.last()@.len() > 0 && out@.last()@.last() == '\n',
    {
        proof {
            let i = it.index() as int;
            assert(text@.take(i + 1).drop_last() =~= text@.take(i));
            assert(text@.take(i + 1).last() == c);
            if !open && out.len() > 0 {
                assert(texts(out@).last() == out@.last()@);
            }
        }
        let ghost before = lines(text@.take(it.index() as int));
        let ghost old_current = current@;
        push_char(&mut current, c);
        if c == '\n' {
            out.push(current);
            current = String::new();
            open = false;
            proof {
                if before.len() > 0 && (before.last().len() == 0 || before.last().last() != '\n') {
                    assert(texts(out@) =~= before.update(
                        before.len() - 1,
                        before.last().push(c),
                    ));
                } else {
                    assert(old_current.push(c) =~= seq![c]);
                    assert(texts(out@) =~= before.push(seq![c]));
                }
            }
        } else {
            proof {
                if before.len() > 0 && (before.last().len() == 0 || before.last().last() != '\n') {
                    assert(texts(out@).push(current@) =~= before.update(
                        before.len() - 1,
                        before.last().push(c),
                    ));
                } else {
                    assert(old_current.push(c) =~= seq![c]);
                    assert(texts(out@).push(current@) =~= before.push(seq![c]));
                }
            }
            open = true;
        }
    }
    proof {
        assert(text@.take(text@.len() as int) =~= text@);
    }
    if open {
        let ghost before = texts(out@).push(current@);
        out.push(current);
        proof {
            assert(texts(out@) =~= before);
        }
    }
    out
}

/// Decodes a whole text line by line. The result holds, in order, what
/// each line gave that the decoder did not pass over.
pub fn decode_all<D: Decode>(context: &Context, text: &str, decoder: &D) -> (items: Vec<
    Result<Event, Error>,
>)
    ensures
        item_views(items@) == decoded_text(*decoder, context@, text@),
{
    let all = split_lines(text);
    let mut items: Vec<Result<Event, Error>> = Vec::new();
    let mut i: usize = 0;
    proof {
        assert(item_views(items@) =~= Seq::empty());
    }
    while i < all.len()
        invariant
            i <= all.len(),
            texts(all@) == lines(text@),
            item_views(items@) == decoded_items(*decoder, context@, lines(text@), i as nat),
        decreases all.len() - i,
    {
        let ghost before = item_views(items@);
        proof {
            assert(texts(all@)[i as int] == all@[i as int]@);
        }
        match decoder.decode(context, all[i].as_str()) {
            Some(item) => {
                items.push(item);
                proof {
                    assert(item_views(items@) =~= before.push(result_view(item)));
                }
            },
            None => {},
        }
        i += 1;
    }
    items
}

/// The events among the items; the errors are dropped.
pub fn keep_events(items: Vec<Result<Event, Error>>) -> (events: Vec<Event>)
    ensures
        event_views(events@) == successes(item_views(items@), items@.len()),
{
    let mut events: Vec<Event> = Vec::new();
    let ghost all = item_views(items@);
    proof {
        assert(event_views(events@) =~= Seq::empty());
    }
    for item in it: items.into_iter()
        invariant
            item_views(it.seq()) == all,
            event_views(events@) == successes(all, it.index() as nat),
    {
        let ghost before = event_views(events@);
        proof {
            assert(all[it.index() as int] == result_view(item));
        }
        match item {
            Ok(e) => {
                events.push(e);
                proof {
                    assert(event_views(events@) =~= before.push(e@));
                }
            },
            Err(_) => {},
        }
    }
    events
}


/// An optional list of events by its views.
pub open spec fn events_result(r: Result<Vec<Event>, Error>) -> Result<Seq<EventView>, ErrorView> {
    match r {
        Ok(events) => Ok(event_views(events@)),
        Err(e) => Err(e@),
    }
}

/// The events of the items if all of them are events, and else the first
/// error among them.
pub fn all_events(items: Vec<Result<Event, Error>>) -> (r: Result<Vec<Event>, Error>)
    ensures
        events_result(r) == all_or_first_error(item_views(items@), items@.len()),
{
    let mut events: Vec<Event> = Vec::new();
    let ghost all = item_views(items@);
    proof {
        assert(event_views(events@) =~= Seq::empty());
    }
    for item in it: items.into_iter()
        invariant
            item_views(it.seq()) == all,
            all_or_first_error(all, it.index() as nat) == Ok::<Seq<EventView>, ErrorView>(
                event_views(events@),
            ),
    {
        let ghost before = event_views(events@);
        let ghost i = it.index() as int;
        proof {
            assert(all[i] == result_view(item));
        }
        match item {
            Ok(e) => {
                events.push(e);
                proof {
                    assert(event_views(events@) =~= before.push(e@));
                }
            },
            Err(e) => {
                proof {
                    lemma_error_stays(all, (i + 1) as nat, all.len());
                }
                return Err(e);
            },
        }
    }
    Ok(events)
}

/// Once the items up to `n` hold an error, that error is the first of any
/// longer stretch too.
pub proof fn lemma_error_stays(items: Seq<Result<EventView, ErrorView>>, n: nat, m: nat)
    requires
        n <= m,
        all_or_first_error(items, n) is Err,
    ensures
        all_or_first_error(items, m) == all_or_first_error(items, n),
    decreases m - n,
{
    if n < m {
        lemma_error_stays(items, n, (m - 1) as nat);
    }
}

/// Once writing the events up to `n` has failed, writing more of them
/// fails in the same way.
pub proof fn lemma_encode_error_stays<E: Encode>(
    encoder: E,
    context: ContextView,
    events: Seq<EventView>,
    n: nat,
    m: nat,
)
    requires
        n <= m,
        encoded_events(encoder, context, events, n) is Err,
    ensures
        encoded_events(encoder, context, events, m) == encoded_events(encoder, context, events, n),
    decreases m - n,
{
    if n < m {
        lemma_encode_error_stays(encoder, context, events, n, (m - 1) as nat);
    }
}

/// Writes the events one after the other and stops at the first that
/// cannot be written.
pub fn encode_all<E: Encode>(context: &Context, events: &Vec<Event>, encoder: &E) -> (r: Result<
    String,
    Error,
>)
    ensures
        text_result(r) == encoded_events(*encoder, context@, event_views(events@), events@.len()),
{
    let mut out = String::new();
    let mut i: usize = 0;
    while i < events.len()
        invariant
            i <= events.len(),
            encoded_events(*encoder, context@, event_views(events@), i as nat) == Ok::<
                Seq<char>,
                ErrorView,
            >(out@),
        decreases events.len() - i,
    {
        proof {
            assert(event_views(events@)[i as int] == events@[i as int]@);
        }
        match encoder.encode(context, &events[i]) {
            Ok(line) => {
                out.append(line.as_str());
            },
            Err(e) => {
                proof {
                    lemma_encode_error_stays(
                        *encoder,
                        context@,
                        event_views(events@),
                        (i + 1) as nat,
                        events@.len(),
                    );
                }
                return Err(e);
            },
        }
        i += 1;
    }
    Ok(out)
}

/// The absolute time of every event, each resolved once and in order.
pub fn resolve(events: &Vec<Event>) -> (stamps: Vec<i64>)
    ensures
        resolved(event_views(events@), stamps@),
{
    let mut stamps: Vec<i64> = Vec::new();
    let mut i: usize = 0;
    while i < events.len()
        invariant
            i <= events.len(),
            stamps.len() == i,
            forall|k: int| 0 <= k < i ==> resolves_to(events@[k].time, #[trigger] stamps@[k]),
        decreases events.len() - i,
    {
        stamps.push(events[i].time.as_timestamp());
        i += 1;
    }
    stamps
}

/// The absolute time of `time` where it has one, and zero otherwise.
pub open spec fn nominal_stamp(time: Time) -> i64 {
    match time {
        Time::Timestamp(t) => t,
        _ => 0,
    }
}

/// The events of a text: what its lines decode to, without the errors.
pub open spec fn decoded_events<D: Decode>(decoder: D, context: ContextView, text: Seq<char>) -> Seq<
    EventView,
> {
    successes(decoded_text(decoder, context, text), decoded_text(decoder, context, text).len())
}

/// Decodes a whole text and drops the lines that decode to an error.
pub fn decode_events<D: Decode>(context: &Context, text: &str, decoder: &D) -> (events: Vec<Event>)
    ensures
        event_views(events@) == decoded_events(*decoder, context@, text@),
{
    keep_events(decode_all(context, text, decoder))
}


/// The events of a text if every line that gives something gives an
/// event, and else the first error.
pub open spec fn decoded_whole<D: Decode>(decoder: D, context: ContextView, text: Seq<char>) -> Result<
    Seq<EventView>,
    ErrorView,
> {
    all_or_first_error(
        decoded_text(decoder, context, text),
        decoded_text(decoder, context, text).len(),
    )
}

} // verus!
