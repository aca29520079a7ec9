//! The dialect of the WeeChat client:
//! `2016-01-24 20:32:25<tab>nick<tab>just some message`.
//!
//! A line is cut at its white-space characters. The first two tokens hold
//! date and time; the arrows that WeeChat draws are not looked at, since
//! users configure them. A line that fits no rule, or has too few tokens
//! for the rule that applies to it, is an error.

use crate::calendar::parsed_timestamp;
use crate::context::{Context, ContextView};
use crate::error::{Error, ErrorView, Field};
use crate::event::{opt_view, rendered, text_result, Event, EventView, Time, Type, TypeView};
use crate::format::{
    close_line, closed, cuts, pieces, rejoin_from, rejoined, strip_one, texts, tokenize, Decode,
    Encode,
};
use crate::text::{begins_with, chars_of, clone_opt, inner, starts_with, str_eq, string_of};
use vstd::prelude::*;
use vstd::string::StringExecFns;

verus! {

/// The WeeChat dialect.
#[derive(Clone, Copy, Debug)]
pub struct Weechat;

/// The pattern under which this dialect reads and writes its times.
pub open spec fn time_pattern() -> Seq<char> {
    "%Y-%m-%d %H:%M:%S"@
}

/// What the rules of this dialect find in the tokens of a line.
pub enum Reading {
    /// An event of this kind; with a channel where the line names one.
    Found(TypeView, Option<Seq<char>>),
    /// The line is of a kind that the dialect has no rule for.
    NoRule,
    /// The rule that applies needs more tokens than the line has.
    TooShort,
}

/// The token at place `i`; empty where the line has no such token.
pub open spec fn at(t: Seq<Seq<char>>, i: int) -> Seq<char> {
    if 0 <= i < t.len() {
        t[i]
    } else {
        Seq::empty()
    }
}

/// The name inside a token of the shape `Notice(name):`.
pub open spec fn notice_sender(token: Seq<char>) -> Seq<char> {
    let skip = "Notice("@.len();
    if token.len() >= skip + 2 {
        token.subrange(skip as int, token.len() - 2)
    } else {
        Seq::empty()
    }
}

/// A line whose sixth token is `has`: somebody joined, left or quit.
pub open spec fn movement(t: Seq<Seq<char>>, s: Seq<char>) -> Reading {
    if at(t, 6) == "joined"@ {
        if t.len() >= 8 {
            Reading::Found(TypeView::Join { nick: t[3], mask: Some(inner(t[4])) }, Some(t[7]))
        } else {
            Reading::TooShort
        }
    } else if at(t, 6) == "left"@ {
        if t.len() >= 9 {
            Reading::Found(
                TypeView::Part {
                    nick: t[3],
                    mask: Some(inner(t[4])),
                    reason: Some(inner(rejoined(t.skip(8), s.skip(8)))),
                },
                Some(t[7]),
            )
        } else {
            Reading::TooShort
        }
    } else if at(t, 6) == "quit"@ {
        if t.len() >= 8 {
            Reading::Found(
                TypeView::Quit {
                    nick: t[3],
                    mask: Some(inner(t[4])),
                    reason: Some(inner(rejoined(t.skip(7), s.skip(7)))),
                },
                None,
            )
        } else {
            Reading::TooShort
        }
    } else {
        Reading::NoRule
    }
}

/// A line whose third token is `--`: a notice, a lost connection or a new
/// nick.
pub open spec fn announcement(t: Seq<Seq<char>>, s: Seq<char>) -> Reading {
    if begins_with(at(t, 3), "Notice("@) {
        if t.len() >= 5 {
            Reading::Found(
                TypeView::Notice {
                    from: notice_sender(t[3]),
                    content: rejoined(t.skip(4), s.skip(4)),
                },
                None,
            )
        } else {
            Reading::TooShort
        }
    } else if t.len() >= 7 && t[3] == "irc:"@ && t[4] == "disconnected"@ && t[5] == "from"@
        && t[6] == "server"@ {
        Reading::Found(TypeView::Disconnect, None)
    } else if at(t, 5) == "now"@ && at(t, 6) == "known"@ && at(t, 7) == "as"@ && (at(t, 4)
        == "is"@ || at(t, 4) == "are"@) {
        if t.len() >= 9 {
            Reading::Found(TypeView::Nick { old_nick: t[3], new_nick: t[8] }, None)
        } else {
            Reading::TooShort
        }
    } else {
        Reading::NoRule
    }
}

/// What the tokens `t` of a line, cut at the characters `s`, report.
pub open spec fn reading(t: Seq<Seq<char>>, s: Seq<char>) -> Reading {
    if at(t, 5) == "has"@ {
        movement(t, s)
    } else if at(t, 2) == "--"@ {
        announcement(t, s)
    } else if at(t, 3) == "*"@ && at(t, 2).len() == 0 {
        if t.len() >= 6 {
            Reading::Found(
                TypeView::Action { from: t[4], content: rejoined(t.skip(5), s.skip(5)) },
                None,
            )
        } else {
            Reading::TooShort
        }
    } else if t.len() >= 4 {
        Reading::Found(TypeView::Msg { from: t[2], content: rejoined(t.skip(3), s.skip(3)) }, None)
    } else {
        Reading::TooShort
    }
}

/// The time of a line: date and time are read together in the input zone,
/// and `Unknown` stands for what cannot be read.
pub open spec fn line_time(context: ContextView, date: Seq<char>, time: Seq<char>) -> Time {
    match parsed_timestamp(context.timezone_in, date + " "@ + time, time_pattern()) {
        Some(stamp) => Time::Timestamp(stamp),
        None => Time::Unknown,
    }
}

/// What a line of this dialect holds. The line is read with a line feed
/// at its end, whether it has one or not. An event takes the channel that
/// the line names and else that of the context.
pub open spec fn decoded_line(context: ContextView, line: Seq<char>) -> Option<
    Result<EventView, ErrorView>,
> {
    let t = pieces(closed(line));
    match reading(t, cuts(closed(line))) {
        Reading::Found(ty, channel) => Some(
            Ok(
                EventView {
                    ty,
                    time: line_time(context, t[0], t[1]),
                    channel: match channel {
                        Some(c) => Some(c),
                        None => context.channel,
                    },
                },
            ),
        ),
        Reading::NoRule => Some(Err(ErrorView::Parse(line))),
        Reading::TooShort => Some(Err(ErrorView::Parse(line))),
    }
}

/// Whether this dialect has a line for the kind of event.
pub open spec fn has_form(ty: TypeView) -> bool {
    match ty {
        TypeView::Msg { .. } => true,
        TypeView::Action { .. } => true,
        TypeView::Join { .. } => true,
        TypeView::Part { .. } => true,
        TypeView::Quit { .. } => true,
        TypeView::Disconnect => true,
        TypeView::Notice { .. } => true,
        TypeView::Nick { .. } => true,
        _ => false,
    }
}

/// A reason in brackets after a blank; nothing for an absent or empty one.
pub open spec fn reason_suffix(reason: Option<Seq<char>>) -> Seq<char> {
    match reason {
        Some(r) => if r.len() > 0 {
            " ("@ + r + ")"@
        } else {
            Seq::empty()
        },
        None => Seq::empty(),
    }
}

/// The line for an event of a kind that has one, with the time already
/// written as `time`. The first absent field that the line needs is
/// reported.
pub open spec fn line_for(ty: TypeView, channel: Option<Seq<char>>, time: Seq<char>) -> Result<
    Seq<char>,
    ErrorView,
> {
    match ty {
        TypeView::Msg { from, content } => Ok(time + "\t"@ + from + "\t"@ + content + "\n"@),
        TypeView::Action { from, content } => Ok(
            time + "\t *\t"@ + from + " "@ + content + "\n"@,
        ),
        TypeView::Join { nick, mask } => match (mask, channel) {
            (Some(m), Some(c)) => Ok(
                time + "\t-->\t"@ + nick + " ("@ + m + ") has joined "@ + c + "\n"@,
            ),
            (None, _) => Err(ErrorView::MissingField(Field::Mask)),
            (Some(_), None) => Err(ErrorView::MissingField(Field::Channel)),
        },
        TypeView::Part { nick, mask, reason } => match (mask, channel) {
            (Some(m), Some(c)) => Ok(
                time + "\t<--\t"@ + nick + " ("@ + m + ") has left "@ + c + reason_suffix(reason)
                    + "\n"@,
            ),
            (None, _) => Err(ErrorView::MissingField(Field::Mask)),
            (Some(_), None) => Err(ErrorView::MissingField(Field::Channel)),
        },
        TypeView::Quit { nick, mask, reason } => match mask {
            Some(m) => Ok(
                time + "\t<--\t"@ + nick + " ("@ + m + ") has quit"@ + reason_suffix(reason)
                    + "\n"@,
            ),
            None => Err(ErrorView::MissingField(Field::Mask)),
        },
        TypeView::Disconnect => Ok(time + "\t--\tirc: disconnected from server\n"@),
        TypeView::Notice { from, content } => Ok(
            time + "\t--\tNotice("@ + from + "): "@ + content + "\n"@,
        ),
        TypeView::Nick { old_nick, new_nick } => Ok(
            time + "\t--\t"@ + old_nick + " is now known as "@ + new_nick + "\n"@,
        ),
        _ => Ok(Seq::empty()),
    }
}

/// The text for an event: nothing where the dialect has no line for its
/// kind; else the error of writing its time, if that fails; else its line.
pub open spec fn encoded_event(context: ContextView, event: EventView) -> Result<
    Seq<char>,
    ErrorView,
> {
    if !has_form(event.ty) {
        Ok(Seq::empty())
    } else {
        match rendered(event.time, context.timezone_out, time_pattern()) {
            Err(e) => Err(e),
            Ok(time) => line_for(event.ty, event.channel, time),
        }
    }
}


/// What reading the tokens of a line gave, with the texts owned.
pub enum Outcome {
    Found(Type, Option<String>),
    NoRule,
    TooShort,
}

impl View for Outcome {
    type V = Reading;

    open spec fn view(&self) -> Reading {
        match *self {
            Outcome::Found(ty, channel) => Reading::Found(ty@, opt_view(channel)),
            Outcome::NoRule => Reading::NoRule,
            Outcome::TooShort => Reading::TooShort,
        }
    }
}

fn word_is(tokens: &Vec<String>, i: usize, word: &str) -> (r: bool)
    ensures
        r == (at(texts(tokens@), i as int) == word@),
{
    if i < tokens.len() {
        str_eq(tokens[i].as_str(), word)
    } else {
        assert(word@.len() == 0 ==> word@ =~= Seq::<char>::empty());
        word.is_empty()
    }
}

fn tail(tokens: &Vec<String>, splits: &Vec<char>, from: usize) -> (out: String)
    requires
        tokens.len() == splits.len() + 1,
        from < tokens.len(),
    ensures
        out@ == rejoined(texts(tokens@).skip(from as int), splits@.skip(from as int)),
{
    rejoin_from(tokens, splits, from)
}

/// The name inside a token of the shape `Notice(name):`.
pub fn read_notice_sender(token: &str) -> (name: String)
    ensures
        name@ == notice_sender(token@),
{
    let cs = chars_of(token);
    let p = chars_of("Notice(");
    if cs.len() >= 2 && cs.len() - 2 >= p.len() {
        string_of(&cs, p.len(), cs.len() - 2)
    } else {
        String::new()
    }
}

fn read_movement(tokens: &Vec<String>, splits: &Vec<char>) -> (r: Outcome)
    requires
        tokens.len() == splits.len() + 1,
    ensures
        r@ == movement(texts(tokens@), splits@),
{
    let len = tokens.len();
    if word_is(tokens, 6, "joined") {
        if len >= 8 {
            Outcome::Found(
                Type::Join { nick: tokens[3].clone(), mask: Some(strip_one(tokens[4].as_str())) },
                Some(tokens[7].clone()),
            )
        } else {
            Outcome::TooShort
        }
    } else if word_is(tokens, 6, "left") {
        if len >= 9 {
            Outcome::Found(
                Type::Part {
                    nick: tokens[3].clone(),
                    mask: Some(strip_one(tokens[4].as_str())),
                    reason: Some(strip_one(tail(tokens, splits, 8).as_str())),
                },
                Some(tokens[7].clone()),
            )
        } else {
            Outcome::TooShort
        }
    } else if word_is(tokens, 6, "quit") {
        if len >= 8 {
            Outcome::Found(
                Type::Quit {
                    nick: tokens[3].clone(),
                    mask: Some(strip_one(tokens[4].as_str())),
                    reason: Some(strip_one(tail(tokens, splits, 7).as_str())),
                },
                None,
            )
        } else {
            Outcome::TooShort
        }
    } else {
        Outcome::NoRule
    }
}

fn begins_notice(tokens: &Vec<String>) -> (r: bool)
    ensures
        r == begins_with(at(texts(tokens@), 3), "Notice("@),
{
    let p = chars_of("Notice(");
    if tokens.len() > 3 {
        let cs = chars_of(tokens[3].as_str());
        starts_with(&cs, &p)
    } else {
        let cs: Vec<char> = Vec::new();
        starts_with(&cs, &p)
    }
}

fn read_announcement(tokens: &Vec<String>, splits: &Vec<char>) -> (r: Outcome)
    requires
        tokens.len() == splits.len() + 1,
    ensures
        r@ == announcement(texts(tokens@), splits@),
{
    let len = tokens.len();
    if begins_notice(tokens) {
        if len >= 5 {
            Outcome::Found(
                Type::Notice {
                    from: read_notice_sender(tokens[3].as_str()),
                    content: tail(tokens, splits, 4),
                },
                None,
            )
        } else {
            Outcome::TooShort
        }
    } else if len >= 7
        && word_is(tokens, 3, "irc:")
        && word_is(tokens, 4, "disconnected")
        && word_is(tokens, 5, "from")
        && word_is(tokens, 6, "server") {
        Outcome::Found(Type::Disconnect, None)
    } else if word_is(tokens, 5, "now")
        && word_is(tokens, 6, "known")
        && word_is(tokens, 7, "as")
        && (word_is(tokens, 4, "is") || word_is(tokens, 4, "are")) {
        if len >= 9 {
            Outcome::Found(
                Type::Nick { old_nick: tokens[3].clone(), new_nick: tokens[8].clone() },
                None,
            )
        } else {
            Outcome::TooShort
        }
    } else {
        Outcome::NoRule
    }
}

fn is_empty_at(tokens: &Vec<String>, i: usize) -> (r: bool)
    ensures
        r == (at(texts(tokens@), i as int).len() == 0),
{
    if i < tokens.len() {
        tokens[i].as_str().is_empty()
    } else {
        true
    }
}

/// What the tokens of a line report.
pub fn read(tokens: &Vec<String>, splits: &Vec<char>) -> (r: Outcome)
    requires
        tokens.len() == splits.len() + 1,
    ensures
        r@ == reading(texts(tokens@), splits@),
        r is Found ==> tokens.len() >= 4,
{
    if word_is(tokens, 5, "has") {
        read_movement(tokens, splits)
    } else if word_is(tokens, 2, "--") {
        read_announcement(tokens, splits)
    } else if word_is(tokens, 3, "*") && is_empty_at(tokens, 2) {
        if tokens.len() >= 6 {
            Outcome::Found(
                Type::Action { from: tokens[4].clone(), content: tail(tokens, splits, 5) },
                None,
            )
        } else {
            Outcome::TooShort
        }
    } else if tokens.len() >= 4 {
        Outcome::Found(
            Type::Msg { from: tokens[2].clone(), content: tail(tokens, splits, 3) },
            None,
        )
    } else {
        Outcome::TooShort
    }
}

/// The time of a line from its first two tokens and the context.
pub fn read_time(context: &Context, date: &str, time: &str) -> (t: Time)
    ensures
        t == line_time(context@, date@, time@),
{
    let mut text = String::from_str(date);
    text.append(" ");
    text.append(time);
    Time::from_format(context.timezone_in, text.as_str(), "%Y-%m-%d %H:%M:%S")
}

impl Decode for Weechat {
    open spec fn decoded(&self, context: ContextView, line: Seq<char>) -> Option<
        Result<EventView, ErrorView>,
    > {
        decoded_line(context, line)
    }

    fn decode(&self, context: &Context, line: &str) -> (r: Option<Result<Event, Error>>) {
        let whole = close_line(line);
        let (tokens, splits) = tokenize(whole.as_str());
        match read(&tokens, &splits) {
            Outcome::Found(ty, channel) => {
                let time = read_time(context, tokens[0].as_str(), tokens[1].as_str());
                let channel = match channel {
                    Some(c) => Some(c),
                    None => clone_opt(&context.channel),
                };
                Some(Ok(Event { ty, time, channel }))
            },
            Outcome::NoRule => Some(Err(Error::Parse(String::from_str(line)))),
            Outcome::TooShort => Some(Err(Error::Parse(String::from_str(line)))),
        }
    }
}

fn can_write(ty: &Type) -> (r: bool)
    ensures
        r == has_form(ty@),
{
    match ty {
        Type::Msg { .. } => true,
        Type::Action { .. } => true,
        Type::Join { .. } => true,
        Type::Part { .. } => true,
        Type::Quit { .. } => true,
        Type::Disconnect => true,
        Type::Notice { .. } => true,
        Type::Nick { .. } => true,
        _ => false,
    }
}

/// The time and what follows it up to the first field.
fn begin(time: &str, after: &str) -> (out: String)
    ensures
        out@ == time@ + after@,
{
    let mut out = String::from_str(time);
    out.append(after);
    out
}

fn append_reason(out: &mut String, reason: &Option<String>)
    ensures
        final(out)@ == old(out)@ + reason_suffix(opt_view(*reason)),
{
    match reason {
        Some(r) => {
            if !r.as_str().is_empty() {
                out.append(" (");
                out.append(r.as_str());
                out.append(")");
                assert(out@ =~= old(out)@ + (" ("@ + r@ + ")"@));
            } else {
                assert(out@ + Seq::<char>::empty() =~= out@);
            }
        },
        None => {
            assert(out@ + Seq::<char>::empty() =~= out@);
        },
    }
}

/// Writes the line of an event whose time is already written as `time`.
pub fn write_line(ty: &Type, channel: &Option<String>, time: &str) -> (r: Result<String, Error>)
    ensures
        text_result(r) == line_for(ty@, opt_view(*channel), time@),
{
    match ty {
        Type::Msg { from, content } => {
            let mut out = begin(time, "\t");
            out.append(from.as_str());
            out.append("\t");
            out.append(content.as_str());
            out.append("\n");
            Ok(out)
        },
        Type::Action { from, content } => {
            let mut out = begin(time, "\t *\t");
            out.append(from.as_str());
            out.append(" ");
            out.append(content.as_str());
            out.append("\n");
            Ok(out)
        },
        Type::Join { nick, mask } => match (mask, channel) {
            (Some(m), Some(c)) => {
                let mut out = begin(time, "\t-->\t");
                out.append(nick.as_str());
                out.append(" (");
                out.append(m.as_str());
                out.append(") has joined ");
                out.append(c.as_str());
                out.append("\n");
                Ok(out)
            },
            (None, _) => Err(Error::MissingField(Field::Mask)),
            (Some(_), None) => Err(Error::MissingField(Field::Channel)),
        },
        Type::Part { nick, mask, reason } => match (mask, channel) {
            (Some(m), Some(c)) => {
                let mut out = begin(time, "\t<--\t");
                out.append(nick.as_str());
                out.append(" (");
                out.append(m.as_str());
                out.append(") has left ");
                out.append(c.as_str());
                append_reason(&mut out, reason);
                out.append("\n");
                Ok(out)
            },
            (None, _) => Err(Error::MissingField(Field::Mask)),
            (Some(_), None) => Err(Error::MissingField(Field::Channel)),
        },
        Type::Quit { nick, mask, reason } => match mask {
            Some(m) => {
                let mut out = begin(time, "\t<--\t");
                out.append(nick.as_str());
                out.append(" (");
                out.append(m.as_str());
                out.append(") has quit");
                append_reason(&mut out, reason);
                out.append("\n");
                Ok(out)
            },
            None => Err(Error::MissingField(Field::Mask)),
        },
        Type::Disconnect => Ok(begin(time, "\t--\tirc: disconnected from server\n")),
        Type::Notice { from, content } => {
            let mut out = begin(time, "\t--\tNotice(");
            out.append(from.as_str());
            out.append("): ");
            out.append(content.as_str());
            out.append("\n");
            Ok(out)
        },
        Type::Nick { old_nick, new_nick } => {
            let mut out = begin(time, "\t--\t");
            out.append(old_nick.as_str());
            out.append(" is now known as ");
            out.append(new_nick.as_str());
            out.append("\n");
            Ok(out)
        },
        _ => Ok(String::new()),
    }
}

impl Encode for Weechat {
    open spec fn encoded(&self, context: ContextView, event: EventView) -> Result<
        Seq<char>,
        ErrorView,
    > {
        encoded_event(context, event)
    }

    fn encode(&self, context: &Context, event: &Event) -> (r: Result<String, Error>) {
        if !can_write(&event.ty) {
            return Ok(String::new());
        }
        match event.time.with_format(context.timezone_out, "%Y-%m-%d %H:%M:%S") {
            Err(e) => Err(e),
            Ok(time) => write_line(&event.ty, &event.channel, time.as_str()),
        }
    }
}

} // verus!
