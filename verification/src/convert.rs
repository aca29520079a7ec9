//! Conversion from one dialect to another, or to the same, with an
//! optional filter on the events that pass.

use crate::context::{Context, ContextView};
use crate::error::{Error, ErrorView};
use crate::event::{
    actor_of, desc_of, opt_str_view, resolves_to, text_of, text_result, Event, EventView, Time,
};
use crate::format::{Decode, Encode};
use crate::stream::{
    decode_all, decoded_text, item_views, nominal_stamp, result_view,
};
use crate::text::{occurs_in, str_contains, str_eq};
use regex::Regex;
use vstd::prelude::*;
use vstd::string::StringExecFns;

verus! {

/// What a regular expression finds in a text: `Some(true)` where the
/// pattern matches somewhere in it, `Some(false)` where it matches
/// nowhere, and `None` where the pattern is no regular expression.
pub uninterp spec fn regex_match(pattern: Seq<char>, text: Seq<char>) -> Option<bool>;

/// `Regex::new` followed by `Regex::is_match`: the answer depends on the
/// pattern and the text alone and is known only under the name
/// `regex_match`. A pattern that does not compile gives `None`.
#[verifier::external_body]
pub(crate) fn match_pattern(pattern: &str, text: &str) -> (r: Option<bool>)
    ensures
        r == regex_match(pattern@, text@),
{
    Regex::new(pattern).ok().map(|re| re.is_match(text))
}

/// The part of an event that a filter looks at.
#[derive(Clone, Copy, Debug, PartialEq, Eq, Structural)]
pub enum Subject {
    /// The nick responsible for the event.
    Nick,
    /// The absolute time of the event.
    Time,
    /// The tag of the kind of event.
    Type,
    /// The free text of the event.
    Text,
}

/// The test that a filter makes. The first three are for texts, the last
/// three for times.
#[derive(Clone, Debug, PartialEq, Eq)]
pub enum Operator {
    /// The text is exactly this.
    Exactly(String),
    /// The text holds this.
    Contains(String),
    /// This regular expression matches somewhere in the text.
    Matches(String),
    /// The time is this.
    Equal(i64),
    /// The time is later than this.
    Greater(i64),
    /// The time is earlier than this.
    Less(i64),
}

/// An `Operator` with its text taken as a sequence of characters.
pub enum OperatorView {
    Exactly(Seq<char>),
    Contains(Seq<char>),
    Matches(Seq<char>),
    Equal(i64),
    Greater(i64),
    Less(i64),
}

impl View for Operator {
    type V = OperatorView;

    open spec fn view(&self) -> OperatorView {
        match *self {
            Operator::Exactly(s) => OperatorView::Exactly(s@),
            Operator::Contains(s) => OperatorView::Contains(s@),
            Operator::Matches(p) => OperatorView::Matches(p@),
            Operator::Equal(t) => OperatorView::Equal(t),
            Operator::Greater(t) => OperatorView::Greater(t),
            Operator::Less(t) => OperatorView::Less(t),
        }
    }
}

/// A condition on events: a subject and the test made on it.
#[derive(Clone, Debug, PartialEq, Eq)]
pub struct Filter(pub Subject, pub Operator);

impl View for Filter {
    type V = (Subject, OperatorView);

    open spec fn view(&self) -> (Subject, OperatorView) {
        (self.0, self.1@)
    }
}

/// A test on a text that may be absent. An absent text passes no test,
/// and neither does any text pass a test that is meant for times or whose
/// pattern is no regular expression.
pub open spec fn text_passes(op: OperatorView, text: Option<Seq<char>>) -> bool {
    match (op, text) {
        (OperatorView::Exactly(s), Some(t)) => t == s,
        (OperatorView::Contains(s), Some(t)) => occurs_in(s, t),
        (OperatorView::Matches(p), Some(t)) => regex_match(p, t) == Some(true),
        _ => false,
    }
}

/// A test on an absolute time. No time passes a test that is meant for
/// texts.
pub open spec fn time_passes(op: OperatorView, stamp: i64) -> bool {
    match op {
        OperatorView::Equal(t) => stamp == t,
        OperatorView::Greater(t) => stamp > t,
        OperatorView::Less(t) => stamp < t,
        _ => false,
    }
}

/// Whether an event whose time resolves to `stamp` satisfies the filter.
pub open spec fn satisfies(filter: (Subject, OperatorView), event: EventView, stamp: i64) -> bool {
    match filter.0 {
        Subject::Nick => text_passes(filter.1, actor_of(event.ty)),
        Subject::Time => time_passes(filter.1, stamp),
        Subject::Type => text_passes(filter.1, Some(desc_of(event.ty))),
        Subject::Text => text_passes(filter.1, text_of(event.ty)),
    }
}

/// Whether an event passes on to the output: without a filter always, and
/// with one where the filter's answer differs from `not`.
pub open spec fn passes(
    filter: Option<(Subject, OperatorView)>,
    not: bool,
    event: EventView,
    stamp: i64,
) -> bool {
    match filter {
        Some(f) => not != satisfies(f, event, stamp),
        None => true,
    }
}

/// An optional filter by its view.
pub open spec fn filter_view(filter: Option<Filter>) -> Option<(Subject, OperatorView)> {
    match filter {
        Some(f) => Some(f@),
        None => None,
    }
}

/// An optional borrowed filter by its view.
pub open spec fn filter_ref_view(filter: Option<&Filter>) -> Option<(Subject, OperatorView)> {
    match filter {
        Some(f) => Some(f@),
        None => None,
    }
}

/// A test on a text that may be absent, where `found` is what the
/// pattern found in the text. Only a test with a pattern looks at it.
pub open spec fn text_judged(op: OperatorView, text: Option<Seq<char>>, found: Option<bool>) -> bool {
    match (op, text) {
        (OperatorView::Exactly(s), Some(t)) => t == s,
        (OperatorView::Contains(s), Some(t)) => occurs_in(s, t),
        (OperatorView::Matches(_), Some(_)) => found == Some(true),
        _ => false,
    }
}

/// Whether a text passes a test, given what the test's pattern found in
/// it: `Some(true)` for a match, `Some(false)` for none, and nothing where
/// the pattern is no regular expression or the test has none.
pub fn judge_text(op: &Operator, text: Option<&str>, found: Option<bool>) -> (r: bool)
    ensures
        r == text_judged(op@, opt_str_view(text), found),
{
    match (op, text) {
        (Operator::Exactly(s), Some(t)) => str_eq(t, s.as_str()),
        (Operator::Contains(s), Some(t)) => str_contains(t, s.as_str()),
        (Operator::Matches(_), Some(_)) => match found {
            Some(found) => found,
            None => false,
        },
        _ => false,
    }
}

fn test_text(op: &Operator, text: Option<&str>) -> (r: bool)
    ensures
        r == text_passes(op@, opt_str_view(text)),
{
    let found = match (op, text) {
        (Operator::Matches(p), Some(t)) => match_pattern(p.as_str(), t),
        _ => None,
    };
    judge_text(op, text, found)
}

fn test_time(op: &Operator, stamp: i64) -> (r: bool)
    ensures
        r == time_passes(op@, stamp),
{
    match op {
        Operator::Equal(t) => stamp == *t,
        Operator::Greater(t) => stamp > *t,
        Operator::Less(t) => stamp < *t,
        _ => false,
    }
}

impl Filter {
    /// Whether the event satisfies the filter, given the absolute time
    /// that its time resolves to.
    pub fn satisfied_at(&self, e: &Event, stamp: i64) -> (r: bool)
        ensures
            r == satisfies(self@, e@, stamp),
    {
        match self.0 {
            Subject::Nick => test_text(&self.1, e.ty.actor()),
            Subject::Time => test_time(&self.1, stamp),
            Subject::Type => test_text(&self.1, Some(e.ty.type_desc())),
            Subject::Text => test_text(&self.1, e.ty.text()),
        }
    }

    /// Whether the event satisfies the filter. Only a filter on the time
    /// resolves the event's time, and then once.
    pub fn satisfied_by(&self, e: &Event) -> (r: bool)
        ensures
            exists|stamp: i64| resolves_to(e.time, stamp) && r == satisfies(self@, e@, stamp),
    {
        let stamp = match self.0 {
            Subject::Time => e.time.as_timestamp(),
            _ => match e.time {
                Time::Timestamp(t) => t,
                _ => 0,
            },
        };
        let r = self.satisfied_at(e, stamp);
        assert(resolves_to(e.time, stamp) && r == satisfies(self@, e@, stamp));
        r
    }

    /// Whether the filter's pattern, if it has one, is a regular
    /// expression.
    pub fn is_valid(&self) -> (r: bool)
        ensures
            r == match self.1@ {
                OperatorView::Matches(p) => regex_match(p, Seq::empty()) is Some,
                _ => true,
            },
    {
        match &self.1 {
            Operator::Matches(p) => {
                let empty = String::new();
                match_pattern(p.as_str(), empty.as_str()).is_some()
            },
            _ => true,
        }
    }
}

/// A filter on the nick with `Contains` is satisfied exactly by the events
/// that have an actor whose nick holds the text.
pub proof fn law_nick_contains(event: EventView, needle: Seq<char>, stamp: i64)
    ensures
        satisfies((Subject::Nick, OperatorView::Contains(needle)), event, stamp) <==> (actor_of(
            event.ty,
        ) is Some && occurs_in(needle, actor_of(event.ty).unwrap())),
{
}

/// A filter on the kind with `Exactly` is satisfied exactly by the events
/// whose tag is the text.
pub proof fn law_type_exactly(event: EventView, tag: Seq<char>, stamp: i64)
    ensures
        satisfies((Subject::Type, OperatorView::Exactly(tag)), event, stamp) <==> desc_of(event.ty)
            == tag,
{
}

/// A filter whose test does not suit its subject is satisfied by no
/// event.
pub proof fn law_mismatch_fails(filter: (Subject, OperatorView), event: EventView, stamp: i64)
    requires
        (filter.0 == Subject::Time) != (filter.1 is Equal || filter.1 is Greater
            || filter.1 is Less),
    ensures
        !satisfies(filter, event, stamp),
{
}


/// Every item that is an event has a time that resolves to the stamp of
/// the same index.
pub open spec fn stamped(items: Seq<Result<EventView, ErrorView>>, stamps: Seq<i64>) -> bool {
    &&& stamps.len() == items.len()
    &&& forall|i: int|
        0 <= i < items.len() ==> match items[i] {
            Ok(e) => resolves_to(e.time, #[trigger] stamps[i]),
            Err(_) => true,
        }
}

/// The stamp of an item that needs no look at the clock: the absolute
/// time of an event that has one, and zero for the rest.
pub open spec fn nominal_item_stamp(item: Result<EventView, ErrorView>) -> i64 {
    match item {
        Ok(e) => nominal_stamp(e.time),
        Err(_) => 0,
    }
}

/// The nominal stamp of every item.
pub open spec fn nominal_item_stamps(items: Seq<Result<EventView, ErrorView>>) -> Seq<i64> {
    items.map_values(|item: Result<EventView, ErrorView>| nominal_item_stamp(item))
}

/// Whether the filter looks at the time of events.
pub open spec fn reads_time(filter: Option<(Subject, OperatorView)>) -> bool {
    match filter {
        Some(f) => f.0 == Subject::Time,
        None => false,
    }
}

/// The output for the first `n` items: the lines of the events that pass,
/// in order; or the first error met, be it an item that is one or an event
/// that passes and cannot be written.
pub open spec fn converted<E: Encode>(
    encoder: E,
    context: ContextView,
    items: Seq<Result<EventView, ErrorView>>,
    stamps: Seq<i64>,
    filter: Option<(Subject, OperatorView)>,
    not: bool,
    n: nat,
) -> Result<Seq<char>, ErrorView>
    decreases n,
{
    if n == 0 {
        Ok(Seq::empty())
    } else {
        match converted(encoder, context, items, stamps, filter, not, (n - 1) as nat) {
            Err(e) => Err(e),
            Ok(text) => match items[n - 1] {
                Err(e) => Err(e),
                Ok(event) => if passes(filter, not, event, stamps[n - 1]) {
                    match encoder.encoded(context, event) {
                        Ok(line) => Ok(text + line),
                        Err(e) => Err(e),
                    }
                } else {
                    Ok(text)
                },
            },
        }
    }
}

/// Once the output for the items up to `n` is an error, it stays that
/// error for any longer stretch.
pub proof fn lemma_converted_error_stays<E: Encode>(
    encoder: E,
    context: ContextView,
    items: Seq<Result<EventView, ErrorView>>,
    stamps: Seq<i64>,
    filter: Option<(Subject, OperatorView)>,
    not: bool,
    n: nat,
    m: nat,
)
    requires
        n <= m,
        converted(encoder, context, items, stamps, filter, not, n) is Err,
    ensures
        converted(encoder, context, items, stamps, filter, not, m) == converted(
            encoder,
            context,
            items,
            stamps,
            filter,
            not,
            n,
        ),
    decreases m - n,
{
    if n < m {
        lemma_converted_error_stays(
            encoder,
            context,
            items,
            stamps,
            filter,
            not,
            n,
            (m - 1) as nat,
        );
    }
}

/// A stamp for every item. With `clock` the time of each event is
/// resolved; without, the stamps are the nominal ones.
pub fn stamp_items(items: &Vec<Result<Event, Error>>, clock: bool) -> (stamps: Vec<i64>)
    ensures
        stamped(item_views(items@), stamps@),
        !clock ==> stamps@ == nominal_item_stamps(item_views(items@)),
{
    let mut stamps: Vec<i64> = Vec::new();
    let mut i: usize = 0;
    while i < items.len()
        invariant
            i <= items.len(),
            stamps.len() == i,
            forall|k: int|
                0 <= k < i ==> match items@[k] {
                    Ok(e) => resolves_to(e.time, #[trigger] stamps@[k]),
                    Err(_) => true,
                },
            !clock ==> forall|k: int|
                0 <= k < i ==> #[trigger] stamps@[k] == nominal_item_stamp(result_view(items@[k])),
        decreases items.len() - i,
    {
        let stamp = match &items[i] {
            Ok(e) => if clock {
                e.time.as_timestamp()
            } else {
                match e.time {
                    Time::Timestamp(t) => t,
                    _ => 0,
                }
            },
            Err(_) => 0,
        };
        stamps.push(stamp);
        i += 1;
    }
    proof {
        assert forall|k: int| 0 <= k < items@.len() implies match item_views(items@)[k] {
            Ok(e) => resolves_to(e.time, #[trigger] stamps@[k]),
            Err(_) => true,
        } by {
            assert(item_views(items@)[k] == result_view(items@[k]));
        }
        if !clock {
            assert(stamps@ =~= nominal_item_stamps(item_views(items@)));
        }
    }
    stamps
}

/// Writes the events among the items that pass the filter, given the
/// stamp of each item. Stops at the first item that is an error and at the
/// first event that cannot be written.
pub fn convert_items<E: Encode>(
    context: &Context,
    items: Vec<Result<Event, Error>>,
    stamps: &Vec<i64>,
    encoder: &E,
    filter: Option<&Filter>,
    not: bool,
) -> (r: Result<String, Error>)
    requires
        stamps.len() == items.len(),
    ensures
        text_result(r) == converted(
            *encoder,
            context@,
            item_views(items@),
            stamps@,
            filter_ref_view(filter),
            not,
            items@.len(),
        ),
{
    let mut out = String::new();
    let ghost all = item_views(items@);
    let ghost f = filter_ref_view(filter);
    let mut i: usize = 0;
    for item in it: items.into_iter()
        invariant
            item_views(it.seq()) == all,
            stamps.len() == all.len(),
            f == filter_ref_view(filter),
            i == it.index(),
            converted(*encoder, context@, all, stamps@, f, not, i as nat) == Ok::<
                Seq<char>,
                ErrorView,
            >(out@),
    {
        proof {
            assert(all[i as int] == result_view(item));
        }
        match item {
            Err(e) => {
                proof {
                    lemma_converted_error_stays(
                        *encoder,
                        context@,
                        all,
                        stamps@,
                        f,
                        not,
                        (i + 1) as nat,
                        all.len(),
                    );
                }
                return Err(e);
            },
            Ok(event) => {
                let pass = match filter {
                    Some(flt) => not != flt.satisfied_at(&event, stamps[i]),
                    None => true,
                };
                if pass {
                    match encoder.encode(context, &event) {
                        Ok(line) => {
                            out.append(line.as_str());
                        },
                        Err(e) => {
                            proof {
                                lemma_converted_error_stays(
                                    *encoder,
                                    context@,
                                    all,
                                    stamps@,
                                    f,
                                    not,
                                    (i + 1) as nat,
                                    all.len(),
                                );
                            }
                            return Err(e);
                        },
                    }
                }
            },
        }
        i += 1;
    }
    Ok(out)
}

fn looks_at_time(filter: &Option<Filter>) -> (r: bool)
    ensures
        r == reads_time(filter_view(*filter)),
{
    match filter {
        Some(f) => match f.0 {
            Subject::Time => true,
            _ => false,
        },
        None => false,
    }
}

/// Converts a log from one dialect to another, or to the same. With a
/// filter only the events pass whose answer to it differs from `not`.
/// The first line that decodes to an error and the first event that
/// cannot be written end the conversion with that error.
///
/// Times are resolved only for a filter on the time; for every other the
/// output is a function of the input alone.
pub fn convert<D: Decode, E: Encode>(
    context: &Context,
    input: &str,
    decoder: &D,
    encoder: &E,
    filter: Option<Filter>,
    not: bool,
) -> (r: Result<String, Error>)
    ensures
        exists|stamps: Seq<i64>|
            #[trigger] stamped(decoded_text(*decoder, context@, input@), stamps) && text_result(r)
                == converted(
                *encoder,
                context@,
                decoded_text(*decoder, context@, input@),
                stamps,
                filter_view(filter),
                not,
                decoded_text(*decoder, context@, input@).len(),
            ),
        !reads_time(filter_view(filter)) ==> {
            let items = decoded_text(*decoder, context@, input@);
            text_result(r) == converted(
                *encoder,
                context@,
                items,
                nominal_item_stamps(items),
                filter_view(filter),
                not,
                items.len(),
            )
        },
{
    let items = decode_all(context, input, decoder);
    let stamps = stamp_items(&items, looks_at_time(&filter));
    let ghost views = item_views(items@);
    let chosen = filter.as_ref();
    assert(filter_ref_view(chosen) == filter_view(filter));
    let r = convert_items(context, items, &stamps, encoder, chosen, not);
    proof {
        let witness = stamps@;
        assert(stamped(views, witness) && text_result(r) == converted(
            *encoder,
            context@,
            views,
            witness,
            filter_view(filter),
            not,
            views.len(),
        ));
    }
    r
}


/// What one line becomes: nothing where the decoder passes over it or the
/// filter holds its event back, the error that it decodes to, and else
/// what the encoder makes of its event.
pub open spec fn converted_line<E: Encode>(
    encoder: E,
    context: ContextView,
    item: Option<Result<EventView, ErrorView>>,
    stamp: i64,
    filter: Option<(Subject, OperatorView)>,
    not: bool,
) -> Result<Seq<char>, ErrorView> {
    match item {
        None => Ok(Seq::empty()),
        Some(Err(e)) => Err(e),
        Some(Ok(event)) => if passes(filter, not, event, stamp) {
            encoder.encoded(context, event)
        } else {
            Ok(Seq::empty())
        },
    }
}

/// Converts one line, taken with its line feed if it had one.
pub fn convert_line<D: Decode, E: Encode>(
    context: &Context,
    line: &str,
    decoder: &D,
    encoder: &E,
    filter: Option<&Filter>,
    not: bool,
) -> (r: Result<String, Error>)
    ensures
        exists|stamp: i64|
            (match decoder.decoded(context@, line@) {
                Some(Ok(event)) => resolves_to(event.time, stamp),
                _ => true,
            }) && text_result(r) == #[trigger] converted_line(
                *encoder,
                context@,
                decoder.decoded(context@, line@),
                stamp,
                filter_ref_view(filter),
                not,
            ),
{
    match decoder.decode(context, line) {
        None => {
            let r: Result<String, Error> = Ok(String::new());
            assert(text_result(r) == converted_line(
                *encoder,
                context@,
                decoder.decoded(context@, line@),
                0,
                filter_ref_view(filter),
                not,
            ));
            r
        },
        Some(Err(e)) => {
            let r: Result<String, Error> = Err(e);
            assert(text_result(r) == converted_line(
                *encoder,
                context@,
                decoder.decoded(context@, line@),
                0,
                filter_ref_view(filter),
                not,
            ));
            r
        },
        Some(Ok(event)) => {
            let stamp = match filter {
                Some(f) => match f.0 {
                    Subject::Time => event.time.as_timestamp(),
                    _ => match event.time {
                        Time::Timestamp(t) => t,
                        _ => 0,
                    },
                },
                None => match event.time {
                    Time::Timestamp(t) => t,
                    _ => 0,
                },
            };
            let pass = match filter {
                Some(f) => not != f.satisfied_at(&event, stamp),
                None => true,
            };
            let r = if pass {
                encoder.encode(context, &event)
            } else {
                Ok(String::new())
            };
            assert(resolves_to(event.time, stamp) && text_result(r) == converted_line(
                *encoder,
                context@,
                decoder.decoded(context@, line@),
                stamp,
                filter_ref_view(filter),
                not,
            ));
            r
        },
    }
}


/// The line is read as an event, and the event is written as the line.
pub open spec fn written_back<D: Decode, E: Encode>(
    decoder: D,
    encoder: E,
    context: ContextView,
    line: Seq<char>,
) -> bool {
    match decoder.decoded(context, line) {
        Some(Ok(event)) => encoder.encoded(context, event) == Ok::<Seq<char>, ErrorView>(line),
        _ => false,
    }
}

/// The first `n` lines, one after the other.
pub open spec fn joined_lines(lines: Seq<Seq<char>>, n: nat) -> Seq<char>
    decreases n,
{
    if n == 0 {
        Seq::empty()
    } else {
        joined_lines(lines, (n - 1) as nat) + lines[n - 1]
    }
}

/// What the first `n` lines are, one after the other, depends on no
/// other line.
proof fn lemma_joined_lines_agree(a: Seq<Seq<char>>, b: Seq<Seq<char>>, n: nat)
    requires
        n <= a.len(),
        n <= b.len(),
        forall|i: int| 0 <= i < n ==> a[i] == b[i],
    ensures
        joined_lines(a, n) == joined_lines(b, n),
    decreases n,
{
    if n > 0 {
        lemma_joined_lines_agree(a, b, (n - 1) as nat);
    }
}

/// The lines of a text, one after the other, are the text.
pub proof fn law_lines_give_the_text_back(text: Seq<char>)
    ensures
        joined_lines(crate::stream::lines(text), crate::stream::lines(text).len()) == text,
    decreases text.len(),
{
    let all = crate::stream::lines(text);
    if text.len() == 0 {
    } else {
        let before_text = text.drop_last();
        let c = text.last();
        law_lines_give_the_text_back(before_text);
        let before = crate::stream::lines(before_text);
        let n = before.len();
        assert(text =~= before_text.push(c));
        if before.len() > 0 && (before.last().len() == 0 || before.last().last() != '\n') {
            lemma_joined_lines_agree(before, all, (n - 1) as nat);
            assert(joined_lines(before, n) == joined_lines(before, (n - 1) as nat) + before[n - 1]);
            assert(joined_lines(all, n) == joined_lines(all, (n - 1) as nat) + all[n - 1]);
            assert(joined_lines(all, n) =~= joined_lines(before, n).push(c));
        } else {
            lemma_joined_lines_agree(before, all, n);
            assert(joined_lines(all, n + 1) =~= joined_lines(before, n).push(c));
        }
    }
}

/// What the conversion of the first `n` items gives depends on no other
/// item.
proof fn lemma_converted_agrees<E: Encode>(
    encoder: E,
    context: ContextView,
    a: Seq<Result<EventView, ErrorView>>,
    b: Seq<Result<EventView, ErrorView>>,
    stamps: Seq<i64>,
    filter: Option<(Subject, OperatorView)>,
    not: bool,
    n: nat,
)
    requires
        n <= a.len(),
        n <= b.len(),
        forall|i: int| 0 <= i < n ==> a[i] == b[i],
    ensures
        converted(encoder, context, a, stamps, filter, not, n) == converted(
            encoder,
            context,
            b,
            stamps,
            filter,
            not,
            n,
        ),
    decreases n,
{
    if n > 0 {
        lemma_converted_agrees(encoder, context, a, b, stamps, filter, not, (n - 1) as nat);
    }
}

/// Of lines that are all written back, the first `n` decode to `n`
/// events, and their conversion without a filter is the lines themselves.
proof fn lemma_written_back_lines_come_back<D: Decode, E: Encode>(
    decoder: D,
    encoder: E,
    context: ContextView,
    lines: Seq<Seq<char>>,
    stamps: Seq<i64>,
    n: nat,
)
    requires
        n <= lines.len(),
        forall|i: int|
            0 <= i < lines.len() ==> written_back(decoder, encoder, context, #[trigger] lines[i]),
    ensures
        crate::stream::decoded_items(decoder, context, lines, n).len() == n,
        converted(
            encoder,
            context,
            crate::stream::decoded_items(decoder, context, lines, n),
            stamps,
            None,
            false,
            n,
        ) == Ok::<Seq<char>, ErrorView>(joined_lines(lines, n)),
    decreases n,
{
    if n > 0 {
        let m = (n - 1) as nat;
        lemma_written_back_lines_come_back(decoder, encoder, context, lines, stamps, m);
        let before = crate::stream::decoded_items(decoder, context, lines, m);
        let now = crate::stream::decoded_items(decoder, context, lines, n);
        assert(written_back(decoder, encoder, context, lines[n - 1]));
        assert(now == before.push(decoder.decoded(context, lines[n - 1]).unwrap()));
        lemma_converted_agrees(encoder, context, before, now, stamps, None, false, m);
    }
}

/// A log whose every line is written back as it was read comes back as
/// it was: converting it without a filter gives the log itself.
pub proof fn law_log_of_written_back_lines_comes_back<D: Decode, E: Encode>(
    decoder: D,
    encoder: E,
    context: ContextView,
    text: Seq<char>,
    stamps: Seq<i64>,
)
    requires
        forall|i: int|
            0 <= i < crate::stream::lines(text).len() ==> written_back(
                decoder,
                encoder,
                context,
                #[trigger] crate::stream::lines(text)[i],
            ),
    ensures
        converted(
            encoder,
            context,
            decoded_text(decoder, context, text),
            stamps,
            None,
            false,
            decoded_text(decoder, context, text).len(),
        ) == Ok::<Seq<char>, ErrorView>(text),
{
    let all = crate::stream::lines(text);
    lemma_written_back_lines_come_back(decoder, encoder, context, all, stamps, all.len());
    law_lines_give_the_text_back(text);
}

} // verus!
