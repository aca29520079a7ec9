//! Who said how much, and when in the week.
//!
//! Only messages count. Each is booked to the nick of its sender, taken
//! without a rank sign in front and without underscores at the end, so
//! that `@alice` and `alice_` are `alice`. A message with an absolute time
//! is also booked to its weekday and hour in UTC. Counters stop at the
//! largest value they can hold.

use crate::calendar::{slot_at, weekday_hour};
use crate::context::Context;
use crate::error::{Error, ErrorView};
use crate::event::{Event, EventView, Time, Type, TypeView};
use crate::format::Decode;
use crate::stream::{all_events, decode_all, decoded_whole, event_views, item_views};
use crate::text::{char_is_alphabetic, char_is_whitespace, chars_of, is_alphabetic, is_whitespace};
use crate::sort::{key_order, sort_ranks, Key};
use vstd::prelude::*;
use vstd::string::StrSliceExecFns;

verus! {

/// The counters of one hour of each weekday.
pub type Day = [u32; 24];

/// The counters of a week, Monday first.
pub type Week = [Day; 7];

/// What one nick has said.
#[derive(Clone, Copy, Debug, PartialEq, Eq, Structural)]
pub struct NickStat {
    /// The number of messages.
    pub lines: u32,
    /// The number of messages with at least one alphabetic character.
    pub alpha_lines: u32,
    /// The number of words in all messages.
    pub words: u32,
}

/// The sum of two counters, or the largest counter where the sum is
/// greater.
pub open spec fn capped(a: u32, b: u32) -> u32 {
    if a + b > u32::MAX {
        u32::MAX
    } else {
        (a + b) as u32
    }
}

/// The sum of two counters, stopping at the largest value.
pub fn add_capped(a: u32, b: u32) -> (r: u32)
    ensures
        r == capped(a, b),
{
    if a > u32::MAX - b {
        u32::MAX
    } else {
        a + b
    }
}

/// One of the signs that servers put in front of a nick to show its rank.
pub open spec fn is_rank_sign(c: char) -> bool {
    c == '~' || c == '&' || c == '@' || c == '%' || c == '+'
}

/// The nick without a rank sign in front. At most one sign is taken off.
pub open spec fn without_rank(nick: Seq<char>) -> Seq<char> {
    if nick.len() > 0 && is_rank_sign(nick[0]) {
        nick.subrange(1, nick.len() as int)
    } else {
        nick
    }
}

/// The nick without the underscores at its end.
pub open spec fn without_tail(nick: Seq<char>) -> Seq<char>
    decreases nick.len(),
{
    if nick.len() > 0 && nick.last() == '_' {
        without_tail(nick.drop_last())
    } else {
        nick
    }
}

/// The name under which a nick is booked: without a rank sign in front
/// and without underscores at the end.
pub open spec fn booked_name(nick: Seq<char>) -> Seq<char> {
    without_tail(without_rank(nick))
}

/// The number of words in a text: the stretches of characters that are
/// not white space.
pub open spec fn word_count(text: Seq<char>) -> nat
    decreases text.len(),
{
    if text.len() == 0 {
        0
    } else {
        let before = word_count(text.drop_last());
        if !char_is_whitespace(text.last()) && (text.len() == 1 || char_is_whitespace(
            text[text.len() - 2],
        )) {
            before + 1
        } else {
            before
        }
    }
}

/// Whether some word of the text holds an alphabetic character.
pub open spec fn has_alpha(text: Seq<char>) -> bool {
    exists|i: int|
        0 <= i < text.len() && !char_is_whitespace(#[trigger] text[i]) && char_is_alphabetic(
            text[i],
        )
}

/// A count as a counter: itself, or the largest counter where it is
/// greater.
pub open spec fn as_counter(n: nat) -> u32 {
    if n > u32::MAX {
        u32::MAX
    } else {
        n as u32
    }
}

/// The number of words in a text, and whether one of them holds an
/// alphabetic character.
pub fn words_alpha(s: &str) -> (r: (u32, bool))
    ensures
        r.0 == as_counter(word_count(s@)),
        r.1 == has_alpha(s@),
{
    let mut alpha = false;
    let mut words: u32 = 0;
    let mut in_word = false;
    proof {
        assert(s@.take(0) =~= Seq::empty());
    }
    for c in it: s.chars()
        invariant
            it.seq() == s@,
            words == as_counter(word_count(s@.take(it.index() as int))),
            alpha == has_alpha(s@.take(it.index() as int)),
            in_word == (it.index() > 0 && !char_is_whitespace(s@[it.index() - 1])),
    {
        let ghost i = it.index() as int;
        let ghost before = s@.take(i);
        let ghost now = s@.take(i + 1);
        proof {
            assert(now.drop_last() =~= before);
            assert(now.last() == c);
            if i > 0 {
                assert(now[now.len() - 2] == s@[i - 1]);
            }
        }
        if is_whitespace(c) {
            in_word = false;
            proof {
                if has_alpha(now) {
                    let k = choose|k: int|
                        0 <= k < now.len() && !char_is_whitespace(#[trigger] now[k])
                            && char_is_alphabetic(now[k]);
                    assert(before[k] == now[k]);
                }
                if has_alpha(before) {
                    let k = choose|k: int|
                        0 <= k < before.len() && !char_is_whitespace(#[trigger] before[k])
                            && char_is_alphabetic(before[k]);
                    assert(before[k] == now[k]);
                }
            }
        } else {
            if !in_word {
                if words < u32::MAX {
                    words += 1;
                }
            }
            in_word = true;
            let letter = is_alphabetic(c);
            proof {
                if has_alpha(before) {
                    let k = choose|k: int|
                        0 <= k < before.len() && !char_is_whitespace(#[trigger] before[k])
                            && char_is_alphabetic(before[k]);
                    assert(before[k] == now[k]);
                }
                if letter {
                    assert(!char_is_whitespace(now[i]) && char_is_alphabetic(now[i]));
                } else if has_alpha(now) {
                    let k = choose|k: int|
                        0 <= k < now.len() && !char_is_whitespace(#[trigger] now[k])
                            && char_is_alphabetic(now[k]);
                    assert(k < i);
                    assert(before[k] == now[k]);
                }
            }
            if letter {
                alpha = true;
            }
        }
    }
    proof {
        assert(s@.take(s@.len() as int) =~= s@);
    }
    (words, alpha)
}

/// The number of words in a text.
pub fn words(s: &str) -> (r: u32)
    ensures
        r == as_counter(word_count(s@)),
{
    words_alpha(s).0
}

/// The nick without a rank sign in front.
pub fn strip_nick_prefix(s: &str) -> (r: &str)
    ensures
        r@ == without_rank(s@),
{
    let n = s.unicode_len();
    if n == 0 {
        return s;
    }
    let first = s.get_char(0);
    if first == '~' || first == '&' || first == '@' || first == '%' || first == '+' {
        s.substring_char(1, n)
    } else {
        s
    }
}

/// A text without the underscores at its end is the same for the text
/// and for the text with more underscores at its end.
proof fn lemma_tail_of_prefix(nick: Seq<char>, end: int)
    requires
        0 <= end <= nick.len(),
        forall|i: int| end <= i < nick.len() ==> nick[i] == '_',
    ensures
        without_tail(nick) == without_tail(nick.take(end)),
    decreases nick.len() - end,
{
    if end < nick.len() {
        assert(nick.drop_last().take(end) =~= nick.take(end));
        lemma_tail_of_prefix(nick.drop_last(), end);
    } else {
        assert(nick.take(end) =~= nick);
    }
}

/// The name under which a nick is booked.
pub fn strip_nick(s: &str) -> (r: &str)
    ensures
        r@ == booked_name(s@),
{
    let bare = strip_nick_prefix(s);
    let cs = chars_of(bare);
    let mut end: usize = cs.len();
    while end > 0 && cs[end - 1] == '_'
        invariant
            end <= cs.len(),
            forall|i: int| end <= i < cs.len() ==> cs@[i] == '_',
        decreases end,
    {
        end -= 1;
    }
    proof {
        lemma_tail_of_prefix(cs@, end as int);
        let kept = cs@.take(end as int);
        assert(without_tail(kept) == kept);
        assert(kept =~= bare@.subrange(0, end as int));
    }
    bare.substring_char(0, end)
}


/// The counters of a nick after one more message with the given number
/// of words; `alpha` says whether the message holds an alphabetic
/// character.
pub open spec fn bumped(old: Option<NickStat>, words: u32, alpha: bool) -> NickStat {
    match old {
        Some(s) => NickStat {
            lines: capped(s.lines, 1),
            alpha_lines: if alpha {
                capped(s.alpha_lines, 1)
            } else {
                s.alpha_lines
            },
            words: capped(s.words, words),
        },
        None => NickStat {
            lines: 1,
            alpha_lines: if alpha {
                1
            } else {
                0
            },
            words,
        },
    }
}

/// The entry of a name in the books, if it has one.
pub open spec fn entry_of(freqs: Map<Seq<char>, NickStat>, name: Seq<char>) -> Option<NickStat> {
    if freqs.dom().contains(name) {
        Some(freqs[name])
    } else {
        None
    }
}

/// The books after an event: a message is booked to the name of its
/// sender, and nothing else changes them.
pub open spec fn freqs_after(freqs: Map<Seq<char>, NickStat>, event: EventView) -> Map<
    Seq<char>,
    NickStat,
> {
    match event.ty {
        TypeView::Msg { from, content } => freqs.insert(
            booked_name(from),
            bumped(
                entry_of(freqs, booked_name(from)),
                as_counter(word_count(content)),
                has_alpha(content),
            ),
        ),
        _ => freqs,
    }
}

/// The weekday and hour that an event is booked to: those of a message
/// with an absolute time that the calendar reaches.
pub open spec fn slot_of(event: EventView) -> Option<(u8, u8)> {
    match (event.ty, event.time) {
        (TypeView::Msg { .. }, Time::Timestamp(t)) => slot_at(t),
        _ => None,
    }
}

/// The counters of the week, by weekday and hour.
pub open spec fn week_view(week: Week) -> Seq<Seq<u32>> {
    Seq::new(7, |d: int| week@[d]@)
}

/// The week with one more message in a slot, if there is a slot and the
/// week has it.
pub open spec fn week_with(week: Seq<Seq<u32>>, slot: Option<(u8, u8)>) -> Seq<Seq<u32>> {
    match slot {
        Some((d, h)) => if d < 7 && h < 24 {
            week.update(
                d as int,
                week[d as int].update(h as int, capped(week[d as int][h as int], 1)),
            )
        } else {
            week
        },
        None => week,
    }
}

/// The week after an event: one more in the slot of the event, if it has
/// one.
pub open spec fn week_after(week: Seq<Seq<u32>>, event: EventView) -> Seq<Seq<u32>> {
    week_with(week, slot_of(event))
}

/// A week without any message.
pub open spec fn empty_week() -> Seq<Seq<u32>> {
    Seq::new(7, |d: int| Seq::new(24, |h: int| 0u32))
}

/// The books after the first `n` events.
pub open spec fn freqs_of(events: Seq<EventView>, n: nat) -> Map<Seq<char>, NickStat>
    decreases n,
{
    if n == 0 {
        Map::empty()
    } else {
        freqs_after(freqs_of(events, (n - 1) as nat), events[n - 1])
    }
}

/// The week after the first `n` events.
pub open spec fn week_of(events: Seq<EventView>, n: nat) -> Seq<Seq<u32>>
    decreases n,
{
    if n == 0 {
        empty_week()
    } else {
        week_after(week_of(events, (n - 1) as nat), events[n - 1])
    }
}

/// The names of the first `n` messages' senders in the order in which
/// each was first booked.
pub open spec fn names_of(events: Seq<EventView>, n: nat) -> Seq<Seq<char>>
    decreases n,
{
    if n == 0 {
        Seq::empty()
    } else {
        names_after(names_of(events, (n - 1) as nat), events[n - 1])
    }
}

/// The names after an event: a message by a sender whose name is new
/// puts it at the end.
pub open spec fn names_after(names: Seq<Seq<char>>, event: EventView) -> Seq<Seq<char>> {
    match event.ty {
        TypeView::Msg { from, .. } => if names.contains(booked_name(from)) {
            names
        } else {
            names.push(booked_name(from))
        },
        _ => names,
    }
}

/// The statistics of a log.
pub struct Stats {
    /// The counters of each name, in the order in which the names came up.
    entries: Vec<(String, NickStat)>,
    /// The number of messages in each hour of each weekday, in UTC.
    week: Week,
}

impl Stats {
    /// The names in the books, in the order in which they came up.
    pub closed spec fn names(&self) -> Seq<Seq<char>> {
        self.entries@.map_values(|e: (String, NickStat)| e.0@)
    }

    /// The counters in the books, in the order of `names`.
    pub closed spec fn counters(&self) -> Seq<NickStat> {
        self.entries@.map_values(|e: (String, NickStat)| e.1)
    }

    /// The number of messages in each hour of each weekday, in UTC.
    pub closed spec fn week_counts(&self) -> Seq<Seq<u32>> {
        week_view(self.week)
    }

    /// No name is booked twice.
    pub open spec fn wf(&self) -> bool {
        &&& self.names().no_duplicates()
        &&& self.counters().len() == self.names().len()
    }

    /// The counters by name.
    pub open spec fn freqs(&self) -> Map<Seq<char>, NickStat> {
        Map::new(
            |name: Seq<char>| self.names().contains(name),
            |name: Seq<char>| self.counters()[self.names().index_of(name)],
        )
    }

    /// Statistics of no event.
    pub fn new() -> (s: Stats)
        ensures
            s.wf(),
            s.names() == Seq::<Seq<char>>::empty(),
            s.freqs() == Map::<Seq<char>, NickStat>::empty(),
            s.week_counts() == empty_week(),
    {
        let s = Stats { entries: Vec::new(), week: [[0u32;24];7] };
        proof {
            assert(s.names() =~= Seq::empty());
            assert(s.freqs() =~= Map::empty());
            assert(week_view(s.week) =~= empty_week()) by {
                assert forall|d: int| 0 <= d < 7 implies #[trigger] week_view(s.week)[d]
                    =~= empty_week()[d] by {}
            }
        }
        s
    }

    /// The number of messages in each hour of each weekday, Monday first,
    /// in UTC.
    pub fn week(&self) -> (w: Week)
        ensures
            week_view(w) == self.week_counts(),
    {
        self.week
    }

    /// The number of names in the books.
    pub fn len(&self) -> (n: usize)
        ensures
            n == self.names().len(),
    {
        self.entries.len()
    }

    fn find(&self, name: &str) -> (r: Option<usize>)
        requires
            self.wf(),
        ensures
            match r {
                Some(i) => i < self.names().len() && self.names()[i as int] == name@,
                None => !self.names().contains(name@),
            },
    {
        let mut i: usize = 0;
        while i < self.entries.len()
            invariant
                i <= self.entries.len(),
                forall|k: int| 0 <= k < i ==> #[trigger] self.names()[k] != name@,
            decreases self.entries.len() - i,
        {
            if crate::text::str_eq(self.entries[i].0.as_str(), name) {
                assert(self.names()[i as int] == self.entries@[i as int].0@);
                return Some(i);
            }
            assert(self.names()[i as int] == self.entries@[i as int].0@);
            i += 1;
        }
        None
    }

    /// The counters of a name, if it is in the books.
    pub fn get(&self, name: &str) -> (r: Option<NickStat>)
        requires
            self.wf(),
        ensures
            r == entry_of(self.freqs(), name@),
    {
        match self.find(name) {
            Some(i) => {
                proof {
                    self.names().index_of_first_ensures(name@);
                    assert(self.names().index_of(name@) == i);
                    assert(self.counters()[i as int] == self.entries@[i as int].1);
                }
                Some(self.entries[i].1)
            },
            None => None,
        }
    }

    /// The name and the counters at a place in the books.
    pub fn entry(&self, i: usize) -> (r: (&str, NickStat))
        requires
            i < self.names().len(),
        ensures
            r.0@ == self.names()[i as int],
            r.1 == self.counters()[i as int],
    {
        (self.entries[i].0.as_str(), self.entries[i].1)
    }

    /// Books one event.
    pub fn record(&mut self, event: &Event)
        requires
            old(self).wf(),
        ensures
            final(self).wf(),
            final(self).freqs() == freqs_after(old(self).freqs(), event@),
            final(self).names() == names_after(old(self).names(), event@),
            final(self).week_counts() == week_after(old(self).week_counts(), event@),
    {
        match &event.ty {
            Type::Msg { from, content } => {
                let name = strip_nick(from.as_str());
                let (words, alpha) = words_alpha(content.as_str());
                let ghost before = self.freqs();
                let ghost old_names = self.names();
                let ghost old_counters = self.counters();
                match self.find(name) {
                    Some(i) => {
                        let old = self.entries[i].1;
                        let new = NickStat {
                            lines: add_capped(old.lines, 1),
                            alpha_lines: if alpha {
                                add_capped(old.alpha_lines, 1)
                            } else {
                                old.alpha_lines
                            },
                            words: add_capped(old.words, words),
                        };
                        let owned = self.entries[i].0.clone();
                        self.entries.set(i, (owned, new));
                        proof {
                            old_names.index_of_first_ensures(name@);
                            assert(old_names.index_of(name@) == i);
                            assert(old_counters[i as int] == old);
                            assert(self.names() =~= old_names);
                            assert(self.counters() =~= old_counters.update(i as int, new));
                            assert forall|k: Seq<char>| self.names().contains(k) implies (
                            #[trigger] self.freqs()[k]) == before.insert(name@, new)[k] by {
                                old_names.index_of_first_ensures(k);
                            }
                            assert(self.freqs() =~= before.insert(name@, new));
                        }
                    },
                    None => {
                        let new = NickStat {
                            lines: 1,
                            alpha_lines: if alpha {
                                1
                            } else {
                                0
                            },
                            words,
                        };
                        self.entries.push((crate::text::owned(name), new));
                        proof {
                            assert(self.names() =~= old_names.push(name@));
                            assert(self.counters() =~= old_counters.push(new));
                            assert forall|k: Seq<char>| self.names().contains(k) implies (
                            #[trigger] self.freqs()[k]) == before.insert(name@, new)[k] by {
                                self.names().index_of_first_ensures(k);
                                if k != name@ {
                                    let j = choose|j: int|
                                        0 <= j < self.names().len() && self.names()[j] == k;
                                    assert(old_names[j] == k);
                                    old_names.index_of_first_ensures(k);
                                }
                            }
                            assert forall|k: Seq<char>| self.names().contains(k)
                                <==> #[trigger] before.insert(name@, new).dom().contains(k) by {
                                if self.names().contains(k) && k != name@ {
                                    let j = choose|j: int|
                                        0 <= j < self.names().len() && self.names()[j] == k;
                                    assert(old_names[j] == k);
                                }
                                if old_names.contains(k) {
                                    let j = choose|j: int|
                                        0 <= j < old_names.len() && old_names[j] == k;
                                    assert(self.names()[j] == k);
                                }
                                if k == name@ {
                                    assert(self.names()[old_names.len() as int] == k);
                                }
                            }
                            assert(self.freqs() =~= before.insert(name@, new));
                        }
                    },
                }
                self.book_time(event);
            },
            _ => {},
        }
    }

    fn book_time(&mut self, event: &Event)
        requires
            event@.ty is Msg,
        ensures
            final(self).names() == old(self).names(),
            final(self).counters() == old(self).counters(),
            final(self).week_counts() == week_after(old(self).week_counts(), event@),
    {
        match event.time {
            Time::Timestamp(t) => self.book_slot(weekday_hour(t)),
            _ => {},
        }
    }

    /// Books one message to a weekday and hour, where it has them; a
    /// weekday or an hour that no week has is passed over.
    pub fn book_slot(&mut self, slot: Option<(u8, u8)>)
        ensures
            final(self).names() == old(self).names(),
            final(self).counters() == old(self).counters(),
            final(self).week_counts() == week_with(old(self).week_counts(), slot),
    {
        let ghost before = week_view(self.week);
        match slot {
            Some((d, h)) => {
                if d < 7 && h < 24 {
                    let mut day = self.week[d as usize];
                    day[h as usize] = add_capped(day[h as usize], 1);
                    self.week[d as usize] = day;
                    proof {
                        assert forall|x: int| 0 <= x < 7 implies #[trigger] week_view(self.week)[x]
                            =~= week_with(before, slot)[x] by {}
                        assert(week_view(self.week) =~= week_with(before, slot));
                    }
                }
            },
            None => {},
        }
    }
}


/// The statistics of a sequence of events.
pub fn tally(events: &Vec<Event>) -> (s: Stats)
    ensures
        s.wf(),
        s.freqs() == freqs_of(event_views(events@), events@.len()),
        s.names() == names_of(event_views(events@), events@.len()),
        s.week_counts() == week_of(event_views(events@), events@.len()),
{
    let mut s = Stats::new();
    let mut i: usize = 0;
    let ghost views = event_views(events@);
    while i < events.len()
        invariant
            i <= events.len(),
            views == event_views(events@),
            s.wf(),
            s.freqs() == freqs_of(views, i as nat),
            s.names() == names_of(views, i as nat),
            s.week_counts() == week_of(views, i as nat),
        decreases events.len() - i,
    {
        assert(views[i as int] == events@[i as int]@);
        s.record(&events[i]);
        i += 1;
    }
    s
}

/// The statistics of a log. A line that decodes to an error ends the run
/// with that error.
pub fn stats<D: Decode>(context: &Context, input: &str, decoder: &D) -> (r: Result<Stats, Error>)
    ensures
        match r {
            Ok(s) => {
                &&& decoded_whole(*decoder, context@, input@) is Ok
                &&& s.wf()
                &&& s.freqs() == freqs_of(
                    decoded_whole(*decoder, context@, input@)->Ok_0,
                    decoded_whole(*decoder, context@, input@)->Ok_0.len(),
                )
                &&& s.names() == names_of(
                    decoded_whole(*decoder, context@, input@)->Ok_0,
                    decoded_whole(*decoder, context@, input@)->Ok_0.len(),
                )
                &&& s.week_counts() == week_of(
                    decoded_whole(*decoder, context@, input@)->Ok_0,
                    decoded_whole(*decoder, context@, input@)->Ok_0.len(),
                )
            },
            Err(e) => decoded_whole(*decoder, context@, input@) == Err::<Seq<EventView>, ErrorView>(
                e@,
            ),
        },
{
    let items = decode_all(context, input, decoder);
    assert(item_views(items@).len() == items@.len());
    match all_events(items) {
        Err(e) => Err(e),
        Ok(events) => {
            assert(event_views(events@).len() == events@.len());
            Ok(tally(&events))
        },
    }
}

/// The key that puts the name at place `i` where it belongs in the
/// ranking: more words come first, and of names with as many words the
/// one that came up first.
pub open spec fn rank_key(counters: Seq<NickStat>, i: int) -> Key {
    ((0 - counters[i].words) as i64, i as usize)
}

/// The keys of all names.
pub open spec fn rank_keys(counters: Seq<NickStat>) -> Seq<Key> {
    Seq::new(counters.len(), |i: int| rank_key(counters, i))
}

/// The places of the first `count` names of the ranking, best first.
pub open spec fn ranking(counters: Seq<NickStat>, count: nat) -> Seq<int> {
    let ranked = rank_keys(counters).sort_by(key_order());
    let n = if count <= ranked.len() {
        count
    } else {
        ranked.len()
    };
    Seq::new(n, |r: int| ranked[r].1 as int)
}

impl Stats {
    /// The places in the books of the `count` names with the most words,
    /// best first; all names where there are fewer.
    pub fn top(&self, count: usize) -> (places: Vec<usize>)
        requires
            self.wf(),
        ensures
            places@.map_values(|p: usize| p as int) == ranking(self.counters(), count as nat),
            forall|r: int| 0 <= r < places@.len() ==> (#[trigger] places@[r]) < self.names().len(),
    {
        let mut keys: Vec<Key> = Vec::new();
        let mut i: usize = 0;
        while i < self.entries.len()
            invariant
                i <= self.entries.len(),
                keys.len() == i,
                forall|k: int| 0 <= k < i ==> #[trigger] keys@[k] == rank_key(self.counters(), k),
            decreases self.entries.len() - i,
        {
            assert(self.counters()[i as int] == self.entries@[i as int].1);
            keys.push((0 - self.entries[i].1.words as i64, i));
            i += 1;
        }
        assert(keys@ =~= rank_keys(self.counters()));
        let ranked = sort_ranks(keys);
        let n = if count <= ranked.len() {
            count
        } else {
            ranked.len()
        };
        let mut places: Vec<usize> = Vec::new();
        let mut r: usize = 0;
        while r < n
            invariant
                r <= n <= ranked.len(),
                places.len() == r,
                forall|k: int| 0 <= k < r ==> #[trigger] places@[k] == ranked@[k].1,
            decreases n - r,
        {
            places.push(ranked[r].1);
            r += 1;
        }
        proof {
            assert(places@.map_values(|p: usize| p as int) =~= ranking(
                self.counters(),
                count as nat,
            ));
            crate::sort::lemma_sorted_keeps_places(rank_keys(self.counters()));
        }
        places
    }
}

/// The names that said the most, with their counters: the `count` names
/// with the most words, best first. A line that decodes to an error ends
/// the run with that error.
pub fn freq<D: Decode>(count: usize, context: &Context, input: &str, decoder: &D) -> (r: Result<
    Vec<(String, NickStat)>,
    Error,
>)
    ensures
        match r {
            Ok(list) => {
                let whole = decoded_whole(*decoder, context@, input@);
                &&& whole is Ok
                &&& list@.len() == ranking(
                    counters_of(whole->Ok_0),
                    count as nat,
                ).len()
                &&& forall|k: int|
                    0 <= k < list@.len() ==> {
                        let place = ranking(counters_of(whole->Ok_0), count as nat)[k];
                        &&& (#[trigger] list@[k]).0@ == names_of(whole->Ok_0, whole->Ok_0.len())[place]
                        &&& list@[k].1 == counters_of(whole->Ok_0)[place]
                    }
            },
            Err(e) => decoded_whole(*decoder, context@, input@) == Err::<Seq<EventView>, ErrorView>(
                e@,
            ),
        },
{
    match stats(context, input, decoder) {
        Err(e) => Err(e),
        Ok(s) => {
            let ghost whole = decoded_whole(*decoder, context@, input@);
            let places = s.top(count);
            let mut list: Vec<(String, NickStat)> = Vec::new();
            let mut k: usize = 0;
            proof {
                assert forall|i: int| 0 <= i < s.names().len() implies #[trigger] s.counters()[i]
                    == counters_of(whole->Ok_0)[i] by {
                    s.names().index_of_first_ensures(s.names()[i]);
                    assert(s.names().contains(s.names()[i]));
                }
                assert(s.counters() =~= counters_of(whole->Ok_0));
            }
            while k < places.len()
                invariant
                    k <= places.len(),
                    list.len() == k,
                    forall|r: int|
                        0 <= r < places@.len() ==> (#[trigger] places@[r]) < s.names().len(),
                    forall|j: int|
                        0 <= j < k ==> (#[trigger] list@[j]).0@ == s.names()[places@[j] as int]
                            && list@[j].1 == s.counters()[places@[j] as int],
                decreases places.len() - k,
            {
                let (name, stat) = s.entry(places[k]);
                list.push((crate::text::owned(name), stat));
                k += 1;
            }
            proof {
                let want = ranking(counters_of(whole->Ok_0), count as nat);
                assert(places@.map_values(|p: usize| p as int) == want);
                assert forall|j: int| 0 <= j < list@.len() implies (#[trigger] list@[j]).0@
                    == names_of(whole->Ok_0, whole->Ok_0.len())[want[j]] && list@[j].1
                    == counters_of(whole->Ok_0)[want[j]] by {
                    assert(places@.map_values(|p: usize| p as int)[j] == places@[j] as int);
                }
            }
            Ok(list)
        },
    }
}

/// The counters of the names of a log, in the order in which the names
/// came up.
pub open spec fn counters_of(events: Seq<EventView>) -> Seq<NickStat> {
    Seq::new(
        names_of(events, events.len()).len(),
        |i: int| freqs_of(events, events.len())[names_of(events, events.len())[i]],
    )
}


/// The name that an event is booked to, if it is a message.
pub open spec fn name_of(event: EventView) -> Option<Seq<char>> {
    match event.ty {
        TypeView::Msg { from, .. } => Some(booked_name(from)),
        _ => None,
    }
}

/// The text of an event that is a message; empty for any other.
pub open spec fn said(event: EventView) -> Seq<char> {
    match event.ty {
        TypeView::Msg { content, .. } => content,
        _ => Seq::empty(),
    }
}

/// The number of messages among the first `n` events that are booked to
/// `name`.
pub open spec fn lines_by(events: Seq<EventView>, name: Seq<char>, n: nat) -> nat
    decreases n,
{
    if n == 0 {
        0
    } else if name_of(events[n - 1]) == Some(name) {
        lines_by(events, name, (n - 1) as nat) + 1
    } else {
        lines_by(events, name, (n - 1) as nat)
    }
}

/// The number of those messages that hold an alphabetic character.
pub open spec fn alpha_lines_by(events: Seq<EventView>, name: Seq<char>, n: nat) -> nat
    decreases n,
{
    if n == 0 {
        0
    } else if name_of(events[n - 1]) == Some(name) && has_alpha(said(events[n - 1])) {
        alpha_lines_by(events, name, (n - 1) as nat) + 1
    } else {
        alpha_lines_by(events, name, (n - 1) as nat)
    }
}

/// The number of words in all of those messages.
pub open spec fn words_by(events: Seq<EventView>, name: Seq<char>, n: nat) -> nat
    decreases n,
{
    if n == 0 {
        0
    } else if name_of(events[n - 1]) == Some(name) {
        words_by(events, name, (n - 1) as nat) + word_count(said(events[n - 1]))
    } else {
        words_by(events, name, (n - 1) as nat)
    }
}

/// The number of messages among the first `n` events that are booked to
/// the weekday `d` and the hour `h`.
pub open spec fn booked_in(events: Seq<EventView>, d: u8, h: u8, n: nat) -> nat
    decreases n,
{
    if n == 0 {
        0
    } else if slot_of(events[n - 1]) == Some((d, h)) {
        booked_in(events, d, h, (n - 1) as nat) + 1
    } else {
        booked_in(events, d, h, (n - 1) as nat)
    }
}

/// Adding two counts and capping the sum is capping each and adding with
/// a cap.
pub proof fn lemma_capped_sum(a: nat, b: nat)
    ensures
        capped(as_counter(a), as_counter(b)) == as_counter(a + b),
{
}

/// The books hold the sums: a name is in them where a message was booked
/// to it, and then with the number of its messages, the number of those
/// with an alphabetic character, and the number of their words, each
/// capped at the largest counter.
pub proof fn law_books_hold_the_sums(events: Seq<EventView>, name: Seq<char>, n: nat)
    ensures
        entry_of(freqs_of(events, n), name) == if lines_by(events, name, n) == 0 {
            None::<NickStat>
        } else {
            Some(
                NickStat {
                    lines: as_counter(lines_by(events, name, n)),
                    alpha_lines: as_counter(alpha_lines_by(events, name, n)),
                    words: as_counter(words_by(events, name, n)),
                },
            )
        },
        alpha_lines_by(events, name, n) <= lines_by(events, name, n),
        lines_by(events, name, n) == 0 ==> words_by(events, name, n) == 0,
    decreases n,
{
    if n == 0 {
        assert(!freqs_of(events, 0).dom().contains(name));
    } else {
        let m = (n - 1) as nat;
        law_books_hold_the_sums(events, name, m);
        let event = events[n - 1];
        let before = freqs_of(events, m);
        lemma_capped_sum(lines_by(events, name, m), 1);
        lemma_capped_sum(alpha_lines_by(events, name, m), 1);
        lemma_capped_sum(words_by(events, name, m), word_count(said(event)));
        match event.ty {
            TypeView::Msg { from, content } => {
                let key = booked_name(from);
                let new = bumped(
                    entry_of(before, key),
                    as_counter(word_count(content)),
                    has_alpha(content),
                );
                assert(freqs_of(events, n) == before.insert(key, new));
                if key == name {
                    assert(entry_of(before.insert(key, new), name) == Some(new));
                } else {
                    assert(entry_of(before.insert(key, new), name) == entry_of(before, name));
                }
            },
            _ => {
                assert(freqs_of(events, n) == before);
            },
        }
    }
}

/// The week holds the sums: every hour of every weekday counts the
/// messages that were booked to it, capped at the largest counter.
pub proof fn law_week_holds_the_sums(events: Seq<EventView>, d: u8, h: u8, n: nat)
    requires
        d < 7,
        h < 24,
    ensures
        week_of(events, n).len() == 7,
        forall|x: int| 0 <= x < 7 ==> (#[trigger] week_of(events, n)[x]).len() == 24,
        week_of(events, n)[d as int][h as int] == as_counter(booked_in(events, d, h, n)),
    decreases n,
{
    if n > 0 {
        let m = (n - 1) as nat;
        law_week_holds_the_sums(events, d, h, m);
        lemma_capped_sum(booked_in(events, d, h, m), 1);
    }
}

} // verus!
