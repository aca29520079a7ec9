//! The dialect of the energymech bot: `[21:53:49] <Foo> hi there`.
//!
//! A line is cut at its white-space characters. The first token holds the
//! time of day, the second decides the kind of event. A line that fits no
//! rule is an error.

use crate::calendar::{dated_timestamp, timestamp_on};
use crate::context::{Context, ContextView};
use crate::error::{Error, ErrorView, Field};
use crate::event::{rendered, text_result, Event, EventView, Time, Type, TypeView};
use crate::format::{
    close_line, closed, cuts, pieces, rejoin_from, rejoined, strip_one, texts, tokenize, Decode,
    Encode,
};
use crate::text::{
    chars_of, clone_opt, inner, parse_two_digits, str_eq, two_digits,
};
use vstd::prelude::*;
use vstd::string::{StrSliceExecFns, StringExecFns};

verus! {

/// The energymech dialect.
#[derive(Clone, Copy, Debug)]
pub struct Energymech;

/// The pattern under which this dialect writes its times.
pub open spec fn time_pattern() -> Seq<char> {
    "%H:%M:%S"@
}

/// The hour, minute and second in a token of the shape `[21:53:49]`: the
/// digits stand at the places 1, 2, 4, 5, 7 and 8, and nothing is asked of
/// the characters around them.
pub open spec fn clock_reading(token: Seq<char>) -> Option<(u8, u8, u8)> {
    if token.len() >= 9 {
        match (
            two_digits(token[1], token[2]),
            two_digits(token[4], token[5]),
            two_digits(token[7], token[8]),
        ) {
            (Some(h), Some(m), Some(s)) => Some((h, m, s)),
            _ => None,
        }
    } else {
        None
    }
}

/// The time of a line. A token that holds no reading gives `Unknown`.
/// With a date in the context the reading is placed on that date in the
/// input zone; a reading that does not exist there gives `Unknown` too.
pub open spec fn line_time(context: ContextView, token: Seq<char>) -> Time {
    match clock_reading(token) {
        None => Time::Unknown,
        Some((h, m, s)) => match context.override_date {
            None => Time::Hms(h, m, s),
            Some(date) => match dated_timestamp(
                context.timezone_in,
                date.year,
                date.month,
                date.day,
                h,
                m,
                s,
            ) {
                Some(stamp) => Time::Timestamp(stamp),
                None => Time::Unknown,
            },
        },
    }
}

/// The token begins with `open` and ends with `close`.
pub open spec fn fenced(token: Seq<char>, open: char, close: char) -> bool {
    token.len() > 0 && token.first() == open && token.last() == close
}

/// What a line whose second token is `***` reports.
pub open spec fn server_notice(t: Seq<Seq<char>>, s: Seq<char>) -> Option<TypeView> {
    let len = t.len();
    if len >= 8 && t[3] == "is"@ && t[4] == "now"@ && t[5] == "known"@ && t[6] == "as"@ {
        Some(TypeView::Nick { old_nick: t[2], new_nick: t[7] })
    } else if len >= 8 && t[3] == "was"@ && t[4] == "kicked"@ && t[5] == "by"@ {
        Some(
            TypeView::Kick {
                kicked_nick: t[2],
                kicking_nick: Some(t[6]),
                kick_message: Some(inner(rejoined(t.skip(7), s.skip(7)))),
            },
        )
    } else if len >= 7 && t[3] == "sets"@ && t[4] == "mode:"@ {
        Some(TypeView::Mode { nick: Some(t[2]), mode: t[5], masks: rejoined(t.skip(6), s.skip(6)) })
    } else if len >= 5 && t[2] == "Joins:"@ {
        Some(TypeView::Join { nick: t[3], mask: Some(inner(t[4])) })
    } else if len >= 6 && t[2] == "Parts:"@ {
        Some(
            TypeView::Part {
                nick: t[3],
                mask: Some(inner(t[4])),
                reason: Some(inner(rejoined(t.skip(5), s.skip(5)))),
            },
        )
    } else if len >= 6 && t[2] == "Quits:"@ {
        Some(
            TypeView::Quit {
                nick: t[3],
                mask: Some(inner(t[4])),
                reason: Some(inner(rejoined(t.skip(5), s.skip(5)))),
            },
        )
    } else if len >= 7 && t[3] == "changes"@ && t[4] == "topic"@ && t[5] == "to"@ {
        Some(
            TypeView::TopicChange {
                nick: Some(t[2]),
                new_topic: inner(rejoined(t.skip(6), s.skip(6))),
            },
        )
    } else {
        None
    }
}

/// What somebody said, by the fence around the name: `<Foo>` for a
/// message, `-Foo-` for a notice.
pub open spec fn utterance(t: Seq<Seq<char>>, s: Seq<char>) -> Option<TypeView> {
    if t.len() >= 3 && fenced(t[1], '<', '>') {
        Some(TypeView::Msg { from: inner(t[1]), content: rejoined(t.skip(2), s.skip(2)) })
    } else if t.len() >= 3 && fenced(t[1], '-', '-') {
        Some(TypeView::Notice { from: inner(t[1]), content: rejoined(t.skip(2), s.skip(2)) })
    } else {
        None
    }
}

/// The kind of event in a line, given its tokens `t` and the characters
/// `s` between them; `None` for a line that fits no rule.
pub open spec fn kind(t: Seq<Seq<char>>, s: Seq<char>) -> Option<TypeView> {
    if t.len() >= 4 && t[1] == "*"@ {
        Some(TypeView::Action { from: t[2], content: rejoined(t.skip(3), s.skip(3)) })
    } else if t.len() >= 2 && t[1] == "***"@ && server_notice(t, s) is Some {
        server_notice(t, s)
    } else {
        utterance(t, s)
    }
}

/// The event in a line of this dialect, if there is one. The line is
/// read with a line feed at its end, whether it has one or not.
pub open spec fn decoded_line(context: ContextView, line: Seq<char>) -> Option<EventView> {
    let t = pieces(closed(line));
    match kind(t, cuts(closed(line))) {
        Some(ty) => Some(
            EventView { ty, time: line_time(context, t[0]), channel: context.channel },
        ),
        None => None,
    }
}

/// Whether this dialect has a line for the kind of event.
pub open spec fn has_form(ty: TypeView) -> bool {
    match ty {
        TypeView::Msg { .. } => true,
        TypeView::Notice { .. } => true,
        TypeView::Action { .. } => true,
        TypeView::Nick { .. } => true,
        TypeView::Mode { .. } => true,
        TypeView::Join { .. } => true,
        TypeView::Part { .. } => true,
        TypeView::Quit { .. } => true,
        TypeView::TopicChange { .. } => true,
        TypeView::Kick { .. } => true,
        _ => false,
    }
}

/// The text of an optional field; empty where it is absent.
pub open spec fn or_empty(text: Option<Seq<char>>) -> Seq<char> {
    match text {
        Some(t) => t,
        None => Seq::empty(),
    }
}

/// The line for an event of a kind that has one, with the time already
/// written as `time`. The first absent field that the line needs is
/// reported.
pub open spec fn line_for(ty: TypeView, time: Seq<char>) -> Result<Seq<char>, ErrorView> {
    match ty {
        TypeView::Msg { from, content } => Ok(
            "["@ + time + "] <"@ + from + "> "@ + content + "\n"@,
        ),
        TypeView::Notice { from, content } => Ok(
            "["@ + time + "] -"@ + from + "- "@ + content + "\n"@,
        ),
        TypeView::Action { from, content } => Ok(
            "["@ + time + "] * "@ + from + " "@ + content + "\n"@,
        ),
        TypeView::Nick { old_nick, new_nick } => Ok(
            "["@ + time + "] *** "@ + old_nick + " is now known as "@ + new_nick + "\n"@,
        ),
        TypeView::Mode { nick, mode, masks } => match nick {
            Some(n) => Ok(
                "["@ + time + "] *** "@ + n + " sets mode: "@ + mode + " "@ + masks + "\n"@,
            ),
            None => Err(ErrorView::MissingField(Field::Nick)),
        },
        TypeView::Join { nick, mask } => match mask {
            Some(m) => Ok("["@ + time + "] *** Joins: "@ + nick + " ("@ + m + ")\n"@),
            None => Err(ErrorView::MissingField(Field::Mask)),
        },
        TypeView::Part { nick, mask, reason } => match mask {
            Some(m) => Ok(
                "["@ + time + "] *** Parts: "@ + nick + " ("@ + m + ") ("@ + or_empty(reason)
                    + ")\n"@,
            ),
            None => Err(ErrorView::MissingField(Field::Mask)),
        },
        TypeView::Quit { nick, mask, reason } => match (mask, reason) {
            (Some(m), Some(r)) => Ok(
                "["@ + time + "] *** Quits: "@ + nick + " ("@ + m + ") ("@ + r + ")\n"@,
            ),
            (None, _) => Err(ErrorView::MissingField(Field::Mask)),
            (Some(_), None) => Err(ErrorView::MissingField(Field::Reason)),
        },
        TypeView::TopicChange { nick, new_topic } => match nick {
            Some(n) => Ok("["@ + time + "] *** "@ + n + " changes topic to '"@ + new_topic + "'\n"@),
            None => Err(ErrorView::MissingField(Field::Nick)),
        },
        TypeView::Kick { kicked_nick, kicking_nick, kick_message } => match (
            kicking_nick,
            kick_message,
        ) {
            (Some(k), Some(m)) => Ok(
                "["@ + time + "] *** "@ + kicked_nick + " was kicked by "@ + k + " ("@ + m + ")\n"@,
            ),
            (None, _) => Err(ErrorView::MissingField(Field::Kicker)),
            (Some(_), None) => Err(ErrorView::MissingField(Field::Message)),
        },
        _ => Ok(Seq::empty()),
    }
}

/// The text for an event: nothing where the dialect has no line for its
/// kind; else the error of writing its time, if that fails; else its line.
pub open spec fn encoded_event(context: ContextView, event: EventView) -> Result<
    Seq<char>,
    ErrorView,
> {
    if !has_form(event.ty) {
        Ok(Seq::empty())
    } else {
        match rendered(event.time, context.timezone_out, time_pattern()) {
            Err(e) => Err(e),
            Ok(time) => line_for(event.ty, time),
        }
    }
}

fn word_is(tokens: &Vec<String>, i: usize, word: &str) -> (r: bool)
    requires
        i < tokens.len(),
    ensures
        r == (texts(tokens@)[i as int] == word@),
{
    str_eq(tokens[i].as_str(), word)
}

fn is_fenced(token: &str, open: char, close: char) -> (r: bool)
    ensures
        r == fenced(token@, open, close),
{
    let n = token.unicode_len();
    n > 0 && token.get_char(0) == open && token.get_char(n - 1) == close
}

/// Reads the time of day out of the first token of a line.
pub fn read_clock(token: &str) -> (r: Option<(u8, u8, u8)>)
    ensures
        r == clock_reading(token@),
{
    let cs = chars_of(token);
    if cs.len() >= 9 {
        match (
            parse_two_digits(cs[1], cs[2]),
            parse_two_digits(cs[4], cs[5]),
            parse_two_digits(cs[7], cs[8]),
        ) {
            (Some(h), Some(m), Some(s)) => Some((h, m, s)),
            _ => None,
        }
    } else {
        None
    }
}

/// The time of a line whose first token reads `reading`, where `dated`
/// is the instant of that reading on the date of the context, if the
/// context has a date and the date has such a time.
pub open spec fn time_of_reading(dated_line: bool, reading: (u8, u8, u8), dated: Option<i64>) -> Time {
    if dated_line {
        match dated {
            Some(stamp) => Time::Timestamp(stamp),
            None => Time::Unknown,
        }
    } else {
        Time::Hms(reading.0, reading.1, reading.2)
    }
}

/// The time of a line from the reading in its first token. Without a
/// date the reading is the time; with one, the time is the instant of the
/// reading on that date, given as `dated`, or `Unknown` where there is
/// none.
pub fn time_from_reading(dated_line: bool, reading: (u8, u8, u8), dated: Option<i64>) -> (t: Time)
    ensures
        t == time_of_reading(dated_line, reading, dated),
{
    if dated_line {
        Time::from_stamp(dated)
    } else {
        Time::Hms(reading.0, reading.1, reading.2)
    }
}

/// The time of a line from its first token and the context.
pub fn read_time(context: &Context, token: &str) -> (t: Time)
    ensures
        t == line_time(context@, token@),
{
    match read_clock(token) {
        None => Time::Unknown,
        Some((h, m, s)) => match context.override_date {
            None => time_from_reading(false, (h, m, s), None),
            Some(date) => time_from_reading(
                true,
                (h, m, s),
                timestamp_on(context.timezone_in, date.year, date.month, date.day, h, m, s),
            ),
        },
    }
}

fn tail(tokens: &Vec<String>, splits: &Vec<char>, from: usize) -> (out: String)
    requires
        tokens.len() == splits.len() + 1,
        from < tokens.len(),
    ensures
        out@ == rejoined(texts(tokens@).skip(from as int), splits@.skip(from as int)),
{
    rejoin_from(tokens, splits, from)
}

fn read_server_notice(tokens: &Vec<String>, splits: &Vec<char>) -> (r: Option<Type>)
    requires
        tokens.len() == splits.len() + 1,
    ensures
        kind_view(r) == server_notice(texts(tokens@), splits@),
{
    let len = tokens.len();
    if len >= 8
        && word_is(tokens, 3, "is")
        && word_is(tokens, 4, "now")
        && word_is(tokens, 5, "known")
        && word_is(tokens, 6, "as") {
        Some(Type::Nick { old_nick: tokens[2].clone(), new_nick: tokens[7].clone() })
    } else if len >= 8
        && word_is(tokens, 3, "was")
        && word_is(tokens, 4, "kicked")
        && word_is(tokens, 5, "by") {
        Some(
            Type::Kick {
                kicked_nick: tokens[2].clone(),
                kicking_nick: Some(tokens[6].clone()),
                kick_message: Some(strip_one(tail(tokens, splits, 7).as_str())),
            },
        )
    } else if len >= 7 && word_is(tokens, 3, "sets") && word_is(tokens, 4, "mode:") {
        Some(
            Type::Mode {
                nick: Some(tokens[2].clone()),
                mode: tokens[5].clone(),
                masks: tail(tokens, splits, 6),
            },
        )
    } else if len >= 5 && word_is(tokens, 2, "Joins:") {
        Some(
            Type::Join {
                nick: tokens[3].clone(),
                mask: Some(strip_one(tokens[4].as_str())),
            },
        )
    } else if len >= 6 && word_is(tokens, 2, "Parts:") {
        Some(
            Type::Part {
                nick: tokens[3].clone(),
                mask: Some(strip_one(tokens[4].as_str())),
                reason: Some(strip_one(tail(tokens, splits, 5).as_str())),
            },
        )
    } else if len >= 6 && word_is(tokens, 2, "Quits:") {
        Some(
            Type::Quit {
                nick: tokens[3].clone(),
                mask: Some(strip_one(tokens[4].as_str())),
                reason: Some(strip_one(tail(tokens, splits, 5).as_str())),
            },
        )
    } else if len >= 7
        && word_is(tokens, 3, "changes")
        && word_is(tokens, 4, "topic")
        && word_is(tokens, 5, "to") {
        Some(
            Type::TopicChange {
                nick: Some(tokens[2].clone()),
                new_topic: strip_one(tail(tokens, splits, 6).as_str()),
            },
        )
    } else {
        None
    }
}

fn read_utterance(tokens: &Vec<String>, splits: &Vec<char>) -> (r: Option<Type>)
    requires
        tokens.len() == splits.len() + 1,
    ensures
        kind_view(r) == utterance(texts(tokens@), splits@),
{
    if tokens.len() >= 3 && is_fenced(tokens[1].as_str(), '<', '>') {
        Some(
            Type::Msg { from: strip_one(tokens[1].as_str()), content: tail(tokens, splits, 2) },
        )
    } else if tokens.len() >= 3 && is_fenced(tokens[1].as_str(), '-', '-') {
        Some(
            Type::Notice { from: strip_one(tokens[1].as_str()), content: tail(tokens, splits, 2) },
        )
    } else {
        None
    }
}

/// An optional kind of event by its view.
pub open spec fn kind_view(r: Option<Type>) -> Option<TypeView> {
    match r {
        Some(ty) => Some(ty@),
        None => None,
    }
}

/// The kind of event that the tokens of a line report.
pub fn read_kind(tokens: &Vec<String>, splits: &Vec<char>) -> (r: Option<Type>)
    requires
        tokens.len() == splits.len() + 1,
    ensures
        kind_view(r) == kind(texts(tokens@), splits@),
{
    if tokens.len() >= 4 && word_is(tokens, 1, "*") {
        return Some(Type::Action { from: tokens[2].clone(), content: tail(tokens, splits, 3) });
    }
    if tokens.len() >= 2 && word_is(tokens, 1, "***") {
        let found = read_server_notice(tokens, splits);
        if found.is_some() {
            return found;
        }
    }
    read_utterance(tokens, splits)
}

impl Decode for Energymech {
    open spec fn decoded(&self, context: ContextView, line: Seq<char>) -> Option<
        Result<EventView, ErrorView>,
    > {
        match decoded_line(context, line) {
            Some(e) => Some(Ok(e)),
            None => Some(Err(ErrorView::Parse(line))),
        }
    }

    fn decode(&self, context: &Context, line: &str) -> (r: Option<Result<Event, Error>>) {
        let whole = close_line(line);
        let (tokens, splits) = tokenize(whole.as_str());
        match read_kind(&tokens, &splits) {
            Some(ty) => Some(
                Ok(
                    Event {
                        ty,
                        time: read_time(context, tokens[0].as_str()),
                        channel: clone_opt(&context.channel),
                    },
                ),
            ),
            None => Some(Err(Error::Parse(String::from_str(line)))),
        }
    }
}


fn can_write(ty: &Type) -> (r: bool)
    ensures
        r == has_form(ty@),
{
    match ty {
        Type::Msg { .. } => true,
        Type::Notice { .. } => true,
        Type::Action { .. } => true,
        Type::Nick { .. } => true,
        Type::Mode { .. } => true,
        Type::Join { .. } => true,
        Type::Part { .. } => true,
        Type::Quit { .. } => true,
        Type::TopicChange { .. } => true,
        Type::Kick { .. } => true,
        _ => false,
    }
}

/// `[`, the time, and what follows it up to the first field.
fn begin(time: &str, after: &str) -> (out: String)
    ensures
        out@ == "["@ + time@ + after@,
{
    let mut out = String::from_str("[");
    out.append(time);
    out.append(after);
    out
}

/// Writes the line of an event whose time is already written as `time`.
pub fn write_line(ty: &Type, time: &str) -> (r: Result<String, Error>)
    ensures
        text_result(r) == line_for(ty@, time@),
{
    match ty {
        Type::Msg { from, content } => {
            let mut out = begin(time, "] <");
            out.append(from.as_str());
            out.append("> ");
            out.append(content.as_str());
            out.append("\n");
            Ok(out)
        },
        Type::Notice { from, content } => {
            let mut out = begin(time, "] -");
            out.append(from.as_str());
            out.append("- ");
            out.append(content.as_str());
            out.append("\n");
            Ok(out)
        },
        Type::Action { from, content } => {
            let mut out = begin(time, "] * ");
            out.append(from.as_str());
            out.append(" ");
            out.append(content.as_str());
            out.append("\n");
            Ok(out)
        },
        Type::Nick { old_nick, new_nick } => {
            let mut out = begin(time, "] *** ");
            out.append(old_nick.as_str());
            out.append(" is now known as ");
            out.append(new_nick.as_str());
            out.append("\n");
            Ok(out)
        },
        Type::Mode { nick, mode, masks } => match nick {
            Some(n) => {
                let mut out = begin(time, "] *** ");
                out.append(n.as_str());
                out.append(" sets mode: ");
                out.append(mode.as_str());
                out.append(" ");
                out.append(masks.as_str());
                out.append("\n");
                Ok(out)
            },
            None => Err(Error::MissingField(Field::Nick)),
        },
        Type::Join { nick, mask } => match mask {
            Some(m) => {
                let mut out = begin(time, "] *** Joins: ");
                out.append(nick.as_str());
                out.append(" (");
                out.append(m.as_str());
                out.append(")\n");
                Ok(out)
            },
            None => Err(Error::MissingField(Field::Mask)),
        },
        Type::Part { nick, mask, reason } => match mask {
            Some(m) => {
                let mut out = begin(time, "] *** Parts: ");
                out.append(nick.as_str());
                out.append(" (");
                out.append(m.as_str());
                out.append(") (");
                match reason {
                    Some(r) => out.append(r.as_str()),
                    None => {
                        assert(out@ + Seq::<char>::empty() =~= out@);
                    },
                }
                out.append(")\n");
                Ok(out)
            },
            None => Err(Error::MissingField(Field::Mask)),
        },
        Type::Quit { nick, mask, reason } => match (mask, reason) {
            (Some(m), Some(r)) => {
                let mut out = begin(time, "] *** Quits: ");
                out.append(nick.as_str());
                out.append(" (");
                out.append(m.as_str());
                out.append(") (");
                out.append(r.as_str());
                out.append(")\n");
                Ok(out)
            },
            (None, _) => Err(Error::MissingField(Field::Mask)),
            (Some(_), None) => Err(Error::MissingField(Field::Reason)),
        },
        Type::TopicChange { nick, new_topic } => match nick {
            Some(n) => {
                let mut out = begin(time, "] *** ");
                out.append(n.as_str());
                out.append(" changes topic to '");
                out.append(new_topic.as_str());
                out.append("'\n");
                Ok(out)
            },
            None => Err(Error::MissingField(Field::Nick)),
        },
        Type::Kick { kicked_nick, kicking_nick, kick_message } => match (
            kicking_nick,
            kick_message,
        ) {
            (Some(k), Some(m)) => {
                let mut out = begin(time, "] *** ");
                out.append(kicked_nick.as_str());
                out.append(" was kicked by ");
                out.append(k.as_str());
                out.append(" (");
                out.append(m.as_str());
                out.append(")\n");
                Ok(out)
            },
            (None, _) => Err(Error::MissingField(Field::Kicker)),
            (Some(_), None) => Err(Error::MissingField(Field::Message)),
        },
        _ => Ok(String::new()),
    }
}

impl Encode for Energymech {
    open spec fn encoded(&self, context: ContextView, event: EventView) -> Result<
        Seq<char>,
        ErrorView,
    > {
        encoded_event(context, event)
    }

    fn encode(&self, context: &Context, event: &Event) -> (r: Result<String, Error>) {
        if !can_write(&event.ty) {
            return Ok(String::new());
        }
        match event.time.with_format(context.timezone_out, "%H:%M:%S") {
            Err(e) => Err(e),
            Ok(time) => write_line(&event.ty, time.as_str()),
        }
    }
}

} // verus!
