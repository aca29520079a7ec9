//! The events of a log as every dialect sees them: what happened, when,
//! and where.

use crate::calendar::{
    parse_timestamp, parsed_timestamp, render_time_of_day, render_timestamp, rendered_time_of_day,
    rendered_timestamp, today_at,
};
use crate::error::{Error, ErrorView};
use crate::text::{clone_opt, occurs_in, str_contains, str_eq};
use std::cmp::Ordering;
use vstd::prelude::*;
use vstd::std_specs::cmp::PartialOrdSpecImpl;

verus! {

/// When an event happened, as far as its source says.
///
/// Dialects differ in what they record: some only the time of day, some
/// the full instant, and a damaged line may give nothing at all.
#[derive(Clone, Copy, Debug, PartialEq, Eq, Hash, Structural)]
pub enum Time {
    /// No usable time.
    Unknown,
    /// Hour, minute and second of an unknown day.
    Hms(u8, u8, u8),
    /// Seconds since the epoch.
    Timestamp(i64),
}

/// Whether the first time of day is later than the second by the rule of
/// dominance: no component is smaller and one of the three is greater.
pub open spec fn dominates(a: (u8, u8, u8), b: (u8, u8, u8)) -> bool {
    (a.0 >= b.0 && a.1 >= b.1 && a.2 > b.2) || (a.0 >= b.0 && a.1 > b.1 && a.2 >= b.2) || (a.0
        > b.0 && a.1 >= b.1 && a.2 >= b.2)
}

/// Whether `stamp` may be the absolute time that `time` resolves to.
/// `Unknown` resolves to zero and an absolute time to itself; a time of day
/// is placed on the current day, so any value may come out.
pub open spec fn resolves_to(time: Time, stamp: i64) -> bool {
    match time {
        Time::Unknown => stamp == 0,
        Time::Hms(_, _, _) => true,
        Time::Timestamp(t) => stamp == t,
    }
}

/// The absolute time of `time` where the clock says `today` of a time of
/// day: zero for `Unknown`, the time itself where it is absolute, and for a
/// time of day what the clock says, or zero where it says nothing.
pub open spec fn resolved_with(time: Time, today: Option<i64>) -> i64 {
    match time {
        Time::Unknown => 0,
        Time::Hms(_, _, _) => match today {
            Some(stamp) => stamp,
            None => 0,
        },
        Time::Timestamp(t) => t,
    }
}

/// What `Time::with_format` returns, by the kind of time.
pub open spec fn rendered(time: Time, offset: i32, pattern: Seq<char>) -> Result<
    Seq<char>,
    ErrorView,
> {
    match time {
        Time::Unknown => Err(ErrorView::MissingTimeData),
        Time::Hms(h, m, s) => match rendered_time_of_day(h, m, s, pattern) {
            Some(text) => Ok(text),
            None => Err(ErrorView::TimeFormat),
        },
        Time::Timestamp(t) => match rendered_timestamp(offset, t, pattern) {
            Some(text) => Ok(text),
            None => Err(ErrorView::TimeFormat),
        },
    }
}

/// A result whose text and error are both taken by their view.
pub open spec fn text_result(r: Result<String, Error>) -> Result<Seq<char>, ErrorView> {
    match r {
        Ok(s) => Ok(s@),
        Err(e) => Err(e@),
    }
}

impl Time {
    /// Reads an absolute time from `s` under the pattern `f`, in the zone
    /// `tz` seconds east of UTC. Text that cannot be read gives `Unknown`.
    pub fn from_format(tz: i32, s: &str, f: &str) -> (t: Time)
        ensures
            t == match parsed_timestamp(tz, s@, f@) {
                Some(stamp) => Time::Timestamp(stamp),
                None => Time::Unknown,
            },
    {
        Time::from_stamp(parse_timestamp(tz, s, f))
    }

    /// The time that a reading gives: the absolute time that was read, or
    /// `Unknown` where nothing was.
    pub fn from_stamp(read: Option<i64>) -> (t: Time)
        ensures
            t == match read {
                Some(stamp) => Time::Timestamp(stamp),
                None => Time::Unknown,
            },
    {
        match read {
            Some(stamp) => Time::Timestamp(stamp),
            None => Time::Unknown,
        }
    }

    /// What writing a time comes to, given the text that the calendar made
    /// of it: that text, or an error where it made none.
    pub fn written(text: Option<String>) -> (r: Result<String, Error>)
        ensures
            text_result(r) == match text {
                Some(t) => Ok::<Seq<char>, ErrorView>(t@),
                None => Err::<Seq<char>, ErrorView>(ErrorView::TimeFormat),
            },
    {
        match text {
            Some(t) => Ok(t),
            None => Err(Error::TimeFormat),
        }
    }

    /// Writes the time under the pattern `f`; an absolute time is seen in
    /// the zone `tz` seconds east of UTC. `Unknown` cannot be written.
    pub fn with_format(&self, tz: i32, f: &str) -> (r: Result<String, Error>)
        ensures
            text_result(r) == rendered(*self, tz, f@),
    {
        match *self {
            Time::Unknown => Err(Error::MissingTimeData),
            Time::Hms(h, m, s) => Time::written(render_time_of_day(h, m, s, f)),
            Time::Timestamp(t) => Time::written(render_timestamp(tz, t, f)),
        }
    }

    /// The absolute time of this time, given what the clock says of a time
    /// of day: `today` is the instant of the reading on the current day, or
    /// nothing where that day has no such time. Only a time of day looks at
    /// it.
    pub fn resolve_with(&self, today: Option<i64>) -> (stamp: i64)
        ensures
            stamp == resolved_with(*self, today),
            resolves_to(*self, stamp),
    {
        match *self {
            Time::Unknown => 0,
            Time::Hms(_, _, _) => match today {
                Some(stamp) => stamp,
                None => 0,
            },
            Time::Timestamp(t) => t,
        }
    }

    /// The absolute time that decides where the event stands among
    /// others. A time of day is placed on the current day in the machine's
    /// zone, and counts as zero where that day has no such time.
    pub fn as_timestamp(&self) -> (stamp: i64)
        ensures
            resolves_to(*self, stamp),
    {
        match *self {
            Time::Hms(h, m, s) => self.resolve_with(today_at(h, m, s)),
            _ => self.resolve_with(None),
        }
    }

    /// The same instant as an absolute time.
    pub fn to_timestamp(&self) -> (t: Time)
        ensures
            t matches Time::Timestamp(stamp) && resolves_to(*self, stamp),
    {
        Time::Timestamp(self.as_timestamp())
    }
}

/// The first time is known to be earlier than the second.
pub open spec fn earlier(a: Time, b: Time) -> bool {
    match (a, b) {
        (Time::Hms(a_h, a_m, a_s), Time::Hms(b_h, b_m, b_s)) => !dominates(
            (a_h, a_m, a_s),
            (b_h, b_m, b_s),
        ),
        (Time::Timestamp(x), Time::Timestamp(y)) => x < y,
        _ => false,
    }
}

/// `earlier` is what `<` means between two times.
pub proof fn law_earlier_is_less(a: Time, b: Time)
    ensures
        earlier(a, b) <==> vstd::std_specs::cmp::PartialOrdSpec::partial_cmp_spec(&a, &b) == Some(
            Ordering::Less,
        ),
{
}

impl Time {
    /// Whether this time is known to be earlier than `other`.
    pub fn is_earlier(&self, other: &Time) -> (r: bool)
        ensures
            r == earlier(*self, *other),
    {
        match (*self, *other) {
            (Time::Hms(a_h, a_m, a_s), Time::Hms(b_h, b_m, b_s)) => !((a_h >= b_h && a_m >= b_m
                && a_s > b_s) || (a_h >= b_h && a_m > b_m && a_s >= b_s) || (a_h > b_h && a_m
                >= b_m && a_s >= b_s)),
            (Time::Timestamp(a), Time::Timestamp(b)) => a < b,
            _ => false,
        }
    }
}

impl PartialOrd for Time {
    /// `Unknown` compares with nothing, and a time of day with no absolute
    /// time. Absolute times compare as numbers. Of two times of day the
    /// first is greater where it dominates the second, and less otherwise.
    fn partial_cmp(&self, other: &Time) -> (r: Option<Ordering>) {
        match (*self, *other) {
            (Time::Hms(a_h, a_m, a_s), Time::Hms(b_h, b_m, b_s)) => {
                if (a_h >= b_h && a_m >= b_m && a_s > b_s) || (a_h >= b_h && a_m > b_m && a_s
                    >= b_s) || (a_h > b_h && a_m >= b_m && a_s >= b_s) {
                    assert(dominates((a_h, a_m, a_s), (b_h, b_m, b_s)));
                    Some(Ordering::Greater)
                } else {
                    assert(!dominates((a_h, a_m, a_s), (b_h, b_m, b_s)));
                    Some(Ordering::Less)
                }
            },
            (Time::Timestamp(a), Time::Timestamp(b)) => {
                if a < b {
                    Some(Ordering::Less)
                } else if a == b {
                    Some(Ordering::Equal)
                } else {
                    Some(Ordering::Greater)
                }
            },
            _ => None,
        }
    }
}

impl PartialOrdSpecImpl for Time {
    open spec fn obeys_partial_cmp_spec() -> bool {
        true
    }

    open spec fn partial_cmp_spec(&self, other: &Time) -> Option<Ordering> {
        match (*self, *other) {
            (Time::Hms(a_h, a_m, a_s), Time::Hms(b_h, b_m, b_s)) => {
                if dominates((a_h, a_m, a_s), (b_h, b_m, b_s)) {
                    Some(Ordering::Greater)
                } else {
                    Some(Ordering::Less)
                }
            },
            (Time::Timestamp(a), Time::Timestamp(b)) => {
                if a < b {
                    Some(Ordering::Less)
                } else if a == b {
                    Some(Ordering::Equal)
                } else {
                    Some(Ordering::Greater)
                }
            },
            _ => None,
        }
    }
}


/// An optional text taken as a sequence of characters.
pub open spec fn opt_view(s: Option<String>) -> Option<Seq<char>> {
    match s {
        Some(x) => Some(x@),
        None => None,
    }
}

/// An optional borrowed text taken as a sequence of characters.
pub open spec fn opt_str_view(s: Option<&str>) -> Option<Seq<char>> {
    match s {
        Some(x) => Some(x@),
        None => None,
    }
}

/// Whether two optional texts hold the same characters, or both nothing.
pub fn opt_same(a: &Option<String>, b: &Option<String>) -> (r: bool)
    ensures
        r == (opt_view(*a) == opt_view(*b)),
{
    match (a, b) {
        (Some(x), Some(y)) => *x == *y,
        (None, None) => true,
        _ => false,
    }
}

/// An optional text as a borrowed slice.
pub fn opt_as_str(s: &Option<String>) -> (r: Option<&str>)
    ensures
        opt_str_view(r) == opt_view(*s),
{
    match s {
        Some(x) => Some(x.as_str()),
        None => None,
    }
}

/// What happened. Each kind carries the fields that mean something for it
/// and no others.
#[allow(inconsistent_fields)]
#[derive(Clone, Debug, PartialEq, Eq, Hash)]
pub enum Type {
    /// The client connected to the server.
    Connect,
    /// The client lost or closed its connection.
    Disconnect,
    /// An ordinary message.
    Msg { from: String, content: String },
    /// A message in the third person.
    Action { from: String, content: String },
    /// Somebody entered the channel.
    Join { nick: String, mask: Option<String> },
    /// Somebody left the channel.
    Part { nick: String, mask: Option<String>, reason: Option<String> },
    /// Somebody left the server.
    Quit { nick: String, mask: Option<String>, reason: Option<String> },
    /// Somebody took a new name.
    Nick { old_nick: String, new_nick: String },
    /// A notice, mostly from a service or a bot.
    Notice { from: String, content: String },
    /// Somebody was removed from the channel.
    Kick { kicked_nick: String, kicking_nick: Option<String>, kick_message: Option<String> },
    /// The channel's topic as announced on entering.
    Topic { topic: String },
    /// The channel's topic was set anew.
    TopicChange { nick: Option<String>, new_topic: String },
    /// Channel or user modes were set.
    Mode { nick: Option<String>, mode: String, masks: String },
}

/// A `Type` with every text taken as a sequence of characters.
#[allow(inconsistent_fields)]
pub enum TypeView {
    Connect,
    Disconnect,
    Msg { from: Seq<char>, content: Seq<char> },
    Action { from: Seq<char>, content: Seq<char> },
    Join { nick: Seq<char>, mask: Option<Seq<char>> },
    Part { nick: Seq<char>, mask: Option<Seq<char>>, reason: Option<Seq<char>> },
    Quit { nick: Seq<char>, mask: Option<Seq<char>>, reason: Option<Seq<char>> },
    Nick { old_nick: Seq<char>, new_nick: Seq<char> },
    Notice { from: Seq<char>, content: Seq<char> },
    Kick { kicked_nick: Seq<char>, kicking_nick: Option<Seq<char>>, kick_message: Option<Seq<char>> },
    Topic { topic: Seq<char> },
    TopicChange { nick: Option<Seq<char>>, new_topic: Seq<char> },
    Mode { nick: Option<Seq<char>>, mode: Seq<char>, masks: Seq<char> },
}

impl View for Type {
    type V = TypeView;

    open spec fn view(&self) -> TypeView {
        match *self {
            Type::Connect => TypeView::Connect,
            Type::Disconnect => TypeView::Disconnect,
            Type::Msg { from, content } => TypeView::Msg { from: from@, content: content@ },
            Type::Action { from, content } => TypeView::Action { from: from@, content: content@ },
            Type::Join { nick, mask } => TypeView::Join { nick: nick@, mask: opt_view(mask) },
            Type::Part { nick, mask, reason } => TypeView::Part { nick: nick@, mask: opt_view(mask), reason: opt_view(reason) },
            Type::Quit { nick, mask, reason } => TypeView::Quit { nick: nick@, mask: opt_view(mask), reason: opt_view(reason) },
            Type::Nick { old_nick, new_nick } => TypeView::Nick { old_nick: old_nick@, new_nick: new_nick@ },
            Type::Notice { from, content } => TypeView::Notice { from: from@, content: content@ },
            Type::Kick { kicked_nick, kicking_nick, kick_message } => TypeView::Kick { kicked_nick: kicked_nick@, kicking_nick: opt_view(kicking_nick), kick_message: opt_view(kick_message) },
            Type::Topic { topic } => TypeView::Topic { topic: topic@ },
            Type::TopicChange { nick, new_topic } => TypeView::TopicChange { nick: opt_view(nick), new_topic: new_topic@ },
            Type::Mode { nick, mode, masks } => TypeView::Mode { nick: opt_view(nick), mode: mode@, masks: masks@ },
        }
    }
}


/// The nick that stands behind an event, if there is one.
pub open spec fn actor_of(t: TypeView) -> Option<Seq<char>> {
    match t {
        TypeView::Msg { from, .. } => Some(from),
        TypeView::Action { from, .. } => Some(from),
        TypeView::Join { nick, .. } => Some(nick),
        TypeView::Part { nick, .. } => Some(nick),
        TypeView::Quit { nick, .. } => Some(nick),
        TypeView::Nick { old_nick, .. } => Some(old_nick),
        TypeView::Notice { from, .. } => Some(from),
        TypeView::Kick { kicking_nick, .. } => kicking_nick,
        TypeView::TopicChange { nick, .. } => nick,
        TypeView::Mode { nick, .. } => nick,
        _ => None,
    }
}

/// The free text of an event, if its kind carries one.
pub open spec fn text_of(t: TypeView) -> Option<Seq<char>> {
    match t {
        TypeView::Msg { content, .. } => Some(content),
        TypeView::Action { content, .. } => Some(content),
        TypeView::Part { reason, .. } => reason,
        TypeView::Quit { reason, .. } => reason,
        TypeView::Notice { content, .. } => Some(content),
        TypeView::Kick { kick_message, .. } => kick_message,
        TypeView::Topic { topic } => Some(topic),
        TypeView::TopicChange { new_topic, .. } => Some(new_topic),
        _ => None,
    }
}

/// The lower-case tag of each kind of event.
pub open spec fn desc_of(t: TypeView) -> Seq<char> {
    match t {
        TypeView::Msg { .. } => "message"@,
        TypeView::Action { .. } => "action"@,
        TypeView::Join { .. } => "join"@,
        TypeView::Part { .. } => "part"@,
        TypeView::Quit { .. } => "quit"@,
        TypeView::Nick { .. } => "nick"@,
        TypeView::Notice { .. } => "notice"@,
        TypeView::Topic { .. } => "topic"@,
        TypeView::TopicChange { .. } => "topic_change"@,
        TypeView::Kick { .. } => "kick"@,
        TypeView::Mode { .. } => "mode"@,
        TypeView::Connect => "connect"@,
        TypeView::Disconnect => "disconnect"@,
    }
}

/// An optional nick is `needle`.
pub open spec fn is_nick(nick: Option<Seq<char>>, needle: Seq<char>) -> bool {
    nick == Some(needle)
}

/// An optional free text holds `needle`.
pub open spec fn mentions(text: Option<Seq<char>>, needle: Seq<char>) -> bool {
    match text {
        Some(t) => occurs_in(needle, t),
        None => false,
    }
}

/// Whether `needle` is one of the nicks of the event or occurs in its free
/// text. A nick has to be `needle` exactly; a text only has to hold it.
pub open spec fn involves_of(t: TypeView, needle: Seq<char>) -> bool {
    match t {
        TypeView::Msg { from, content } => from == needle || occurs_in(needle, content),
        TypeView::Action { from, content } => from == needle || occurs_in(needle, content),
        TypeView::Join { nick, .. } => nick == needle,
        TypeView::Part { nick, reason, .. } => nick == needle || mentions(reason, needle),
        TypeView::Quit { nick, reason, .. } => nick == needle || mentions(reason, needle),
        TypeView::Nick { old_nick, new_nick } => old_nick == needle || new_nick == needle,
        TypeView::Notice { from, content } => from == needle || occurs_in(needle, content),
        TypeView::Kick { kicked_nick, kicking_nick, kick_message } => kicked_nick == needle
            || is_nick(kicking_nick, needle) || mentions(kick_message, needle),
        TypeView::TopicChange { nick, new_topic } => is_nick(nick, needle) || occurs_in(
            needle,
            new_topic,
        ),
        TypeView::Mode { nick, .. } => is_nick(nick, needle),
        _ => false,
    }
}

fn nick_is(nick: &Option<String>, needle: &str) -> (r: bool)
    ensures
        r == is_nick(opt_view(*nick), needle@),
{
    match nick {
        Some(n) => str_eq(n.as_str(), needle),
        None => false,
    }
}

fn text_mentions(text: &Option<String>, needle: &str) -> (r: bool)
    ensures
        r == mentions(opt_view(*text), needle@),
{
    match text {
        Some(t) => str_contains(t.as_str(), needle),
        None => false,
    }
}

impl Type {
    /// The nick responsible for the event: who spoke, joined, kicked or set
    /// the mode. Connecting, disconnecting and an announced topic have
    /// none, nor has a kick whose kicker is not recorded.
    pub fn actor(&self) -> (r: Option<&str>)
        ensures
            opt_str_view(r) == actor_of(self@),
    {
        match self {
            Type::Msg { from, .. } => Some(from.as_str()),
            Type::Action { from, .. } => Some(from.as_str()),
            Type::Join { nick, .. } => Some(nick.as_str()),
            Type::Part { nick, .. } => Some(nick.as_str()),
            Type::Quit { nick, .. } => Some(nick.as_str()),
            Type::Nick { old_nick, .. } => Some(old_nick.as_str()),
            Type::Notice { from, .. } => Some(from.as_str()),
            Type::Kick { kicking_nick, .. } => opt_as_str(kicking_nick),
            Type::TopicChange { nick, .. } => opt_as_str(nick),
            Type::Mode { nick, .. } => opt_as_str(nick),
            _ => None,
        }
    }

    /// Whether `needle` names somebody in the event or occurs in what was
    /// said.
    pub fn involves(&self, needle: &str) -> (r: bool)
        ensures
            r == involves_of(self@, needle@),
    {
        match self {
            Type::Msg { from, content } => str_eq(from.as_str(), needle) || str_contains(
                content.as_str(),
                needle,
            ),
            Type::Action { from, content } => str_eq(from.as_str(), needle) || str_contains(
                content.as_str(),
                needle,
            ),
            Type::Join { nick, .. } => str_eq(nick.as_str(), needle),
            Type::Part { nick, reason, .. } => str_eq(nick.as_str(), needle) || text_mentions(
                reason,
                needle,
            ),
            Type::Quit { nick, reason, .. } => str_eq(nick.as_str(), needle) || text_mentions(
                reason,
                needle,
            ),
            Type::Nick { old_nick, new_nick } => str_eq(old_nick.as_str(), needle) || str_eq(
                new_nick.as_str(),
                needle,
            ),
            Type::Notice { from, content } => str_eq(from.as_str(), needle) || str_contains(
                content.as_str(),
                needle,
            ),
            Type::Kick { kicked_nick, kicking_nick, kick_message } => str_eq(
                kicked_nick.as_str(),
                needle,
            ) || nick_is(kicking_nick, needle) || text_mentions(kick_message, needle),
            Type::TopicChange { nick, new_topic } => nick_is(nick, needle) || str_contains(
                new_topic.as_str(),
                needle,
            ),
            Type::Mode { nick, .. } => nick_is(nick, needle),
            _ => false,
        }
    }

    /// The fixed lower-case tag of the kind of event.
    pub fn type_desc(&self) -> (r: &'static str)
        ensures
            r@ == desc_of(self@),
    {
        match self {
            Type::Msg { .. } => "message",
            Type::Action { .. } => "action",
            Type::Join { .. } => "join",
            Type::Part { .. } => "part",
            Type::Quit { .. } => "quit",
            Type::Nick { .. } => "nick",
            Type::Notice { .. } => "notice",
            Type::Topic { .. } => "topic",
            Type::TopicChange { .. } => "topic_change",
            Type::Kick { .. } => "kick",
            Type::Mode { .. } => "mode",
            Type::Connect => "connect",
            Type::Disconnect => "disconnect",
        }
    }

    /// The free text of the event: what was said, the reason given, the
    /// topic.
    pub fn text(&self) -> (r: Option<&str>)
        ensures
            opt_str_view(r) == text_of(self@),
    {
        match self {
            Type::Msg { content, .. } => Some(content.as_str()),
            Type::Action { content, .. } => Some(content.as_str()),
            Type::Part { reason, .. } => opt_as_str(reason),
            Type::Quit { reason, .. } => opt_as_str(reason),
            Type::Notice { content, .. } => Some(content.as_str()),
            Type::Kick { kick_message, .. } => opt_as_str(kick_message),
            Type::Topic { topic } => Some(topic.as_str()),
            Type::TopicChange { new_topic, .. } => Some(new_topic.as_str()),
            _ => None,
        }
    }

    /// Whether two values are of the same kind and agree in every field.
    pub fn same(&self, other: &Type) -> (r: bool)
        ensures
            r == (self@ == other@),
    {
        match (self, other) {
            (Type::Connect, Type::Connect) => true,
            (Type::Disconnect, Type::Disconnect) => true,
            (Type::Msg { from: a0, content: a1 }, Type::Msg { from: b0, content: b1 }) => *a0 == *b0 && *a1 == *b1,
            (Type::Action { from: a0, content: a1 }, Type::Action { from: b0, content: b1 }) => *a0 == *b0 && *a1 == *b1,
            (Type::Join { nick: a0, mask: a1 }, Type::Join { nick: b0, mask: b1 }) => *a0 == *b0 && opt_same(a1, b1),
            (Type::Part { nick: a0, mask: a1, reason: a2 }, Type::Part { nick: b0, mask: b1, reason: b2 }) => *a0 == *b0 && opt_same(a1, b1) && opt_same(a2, b2),
            (Type::Quit { nick: a0, mask: a1, reason: a2 }, Type::Quit { nick: b0, mask: b1, reason: b2 }) => *a0 == *b0 && opt_same(a1, b1) && opt_same(a2, b2),
            (Type::Nick { old_nick: a0, new_nick: a1 }, Type::Nick { old_nick: b0, new_nick: b1 }) => *a0 == *b0 && *a1 == *b1,
            (Type::Notice { from: a0, content: a1 }, Type::Notice { from: b0, content: b1 }) => *a0 == *b0 && *a1 == *b1,
            (Type::Kick { kicked_nick: a0, kicking_nick: a1, kick_message: a2 }, Type::Kick { kicked_nick: b0, kicking_nick: b1, kick_message: b2 }) => *a0 == *b0 && opt_same(a1, b1) && opt_same(a2, b2),
            (Type::Topic { topic: a0 }, Type::Topic { topic: b0 }) => *a0 == *b0,
            (Type::TopicChange { nick: a0, new_topic: a1 }, Type::TopicChange { nick: b0, new_topic: b1 }) => opt_same(a0, b0) && *a1 == *b1,
            (Type::Mode { nick: a0, mode: a1, masks: a2 }, Type::Mode { nick: b0, mode: b1, masks: b2 }) => opt_same(a0, b0) && *a1 == *b1 && *a2 == *b2,
            _ => false,
        }
    }


    /// A copy that owns its texts.
    pub fn duplicate(&self) -> (r: Type)
        ensures
            r == *self,
    {
        match self {
            Type::Connect => Type::Connect,
            Type::Disconnect => Type::Disconnect,
            Type::Msg { from, content } => Type::Msg { from: from.clone(), content: content.clone() },
            Type::Action { from, content } => Type::Action { from: from.clone(), content: content.clone() },
            Type::Join { nick, mask } => Type::Join { nick: nick.clone(), mask: clone_opt(mask) },
            Type::Part { nick, mask, reason } => Type::Part { nick: nick.clone(), mask: clone_opt(mask), reason: clone_opt(reason) },
            Type::Quit { nick, mask, reason } => Type::Quit { nick: nick.clone(), mask: clone_opt(mask), reason: clone_opt(reason) },
            Type::Nick { old_nick, new_nick } => Type::Nick { old_nick: old_nick.clone(), new_nick: new_nick.clone() },
            Type::Notice { from, content } => Type::Notice { from: from.clone(), content: content.clone() },
            Type::Kick { kicked_nick, kicking_nick, kick_message } => Type::Kick { kicked_nick: kicked_nick.clone(), kicking_nick: clone_opt(kicking_nick), kick_message: clone_opt(kick_message) },
            Type::Topic { topic } => Type::Topic { topic: topic.clone() },
            Type::TopicChange { nick, new_topic } => Type::TopicChange { nick: clone_opt(nick), new_topic: new_topic.clone() },
            Type::Mode { nick, mode, masks } => Type::Mode { nick: clone_opt(nick), mode: mode.clone(), masks: masks.clone() },
        }
    }

}

/// One entry of a log.
#[derive(Clone, Debug, PartialEq, Eq, Hash)]
pub struct Event {
    pub ty: Type,
    pub time: Time,
    pub channel: Option<String>,
}

/// An `Event` with every text taken as a sequence of characters.
pub struct EventView {
    pub ty: TypeView,
    pub time: Time,
    pub channel: Option<Seq<char>>,
}

impl View for Event {
    type V = EventView;

    open spec fn view(&self) -> EventView {
        EventView { ty: self.ty@, time: self.time, channel: opt_view(self.channel) }
    }
}

impl Event {
    /// A copy that owns its texts.
    pub fn duplicate(&self) -> (r: Event)
        ensures
            r == *self,
    {
        Event { ty: self.ty.duplicate(), time: self.time, channel: clone_opt(&self.channel) }
    }

    /// Whether two events are of the same kind, agree in every field of it
    /// and belong to the same channel, whatever their times.
    pub fn same_signature(&self, other: &Event) -> (r: bool)
        ensures
            r == (signature_of(self@) == signature_of(other@)),
    {
        self.ty.same(&other.ty) && opt_same(&self.channel, &other.channel)
    }
}

/// What makes two events the same for deduplication: kind, fields and
/// channel. The time is left out on purpose.
pub open spec fn signature_of(e: EventView) -> (TypeView, Option<Seq<char>>) {
    (e.ty, e.channel)
}

/// A whole log, in memory: a private query as well as a channel.
pub struct Log {
    pub entries: Vec<Event>,
}

/// Somebody who took part, under the nicks they used.
#[derive(Clone, Debug, PartialEq, Eq, Hash)]
pub struct User {
    pub nicks: String,
}

} // verus!
