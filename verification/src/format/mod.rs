//! The boundary between lines of text and events, and what the dialects
//! share: cutting a line into tokens and putting tokens back together.
//!
//! A decoder sees one line at a time, with its line feed where the input
//! had one, and an encoder writes one event at a time. Reading and writing
//! the bytes is left to the caller.

pub mod energymech;
pub mod roundtrip;
pub mod weechat;

use crate::context::{Context, ContextView};
use crate::error::{Error, ErrorView};
use crate::event::{text_result, Event, EventView};
use crate::format::energymech::Energymech;
use crate::format::weechat::Weechat;
use crate::text::{char_is_whitespace, inner, is_whitespace, push_char, str_eq};
use vstd::prelude::*;
use vstd::string::{StrSliceExecFns, StringExecFns};

verus! {

/// What one line gives: nothing, an event, or an error.
pub open spec fn item_view(r: Option<Result<Event, Error>>) -> Option<Result<EventView, ErrorView>> {
    match r {
        None => None,
        Some(Ok(e)) => Some(Ok(e@)),
        Some(Err(e)) => Some(Err(e@)),
    }
}

/// Turns lines of one dialect into events.
pub trait Decode {
    /// What the line holds in this dialect: an event, or an error that
    /// names the line where it fits no rule of the dialect. Only a dialect
    /// that reads nothing at all gives nothing.
    spec fn decoded(&self, context: ContextView, line: Seq<char>) -> Option<
        Result<EventView, ErrorView>,
    >;

    /// Decodes one line, taken with its line feed if it had one.
    fn decode(&self, context: &Context, line: &str) -> (r: Option<Result<Event, Error>>)
        ensures
            item_view(r) == self.decoded(context@, line@),
    ;
}

/// Turns events into text of one dialect.
pub trait Encode {
    /// The text that the event becomes: one line with its line feed, or
    /// nothing where the dialect has no form for this kind of event.
    spec fn encoded(&self, context: ContextView, event: EventView) -> Result<Seq<char>, ErrorView>;

    /// Encodes one event.
    fn encode(&self, context: &Context, event: &Event) -> (r: Result<String, Error>)
        ensures
            text_result(r) == self.encoded(context@, event@),
    ;
}

/// A decoder that finds nothing in any line.
#[derive(Clone, Copy, Debug)]
pub struct Dummy;

impl Decode for Dummy {
    open spec fn decoded(&self, context: ContextView, line: Seq<char>) -> Option<
        Result<EventView, ErrorView>,
    > {
        None
    }

    fn decode(&self, context: &Context, line: &str) -> (r: Option<Result<Event, Error>>) {
        None
    }
}

/// The line as it is read: with a line feed at its end. A line that the
/// input leaves open, as the last one may be, is read as if a line feed
/// ended it.
pub open spec fn closed(line: Seq<char>) -> Seq<char> {
    if line.len() > 0 && line.last() == '\n' {
        line
    } else {
        line.push('\n')
    }
}

/// The line with a line feed at its end, which is added where the line
/// has none.
pub fn close_line(line: &str) -> (out: String)
    ensures
        out@ == closed(line@),
{
    let n = line.unicode_len();
    let mut out = String::from_str(line);
    if !(n > 0 && line.get_char(n - 1) == '\n') {
        push_char(&mut out, '\n');
    }
    out
}

/// The tokens of a line: the stretches between its white-space characters,
/// empty ones included. A line with `n` such characters has `n + 1` tokens.
pub open spec fn pieces(line: Seq<char>) -> Seq<Seq<char>>
    decreases line.len(),
{
    if line.len() == 0 {
        seq![Seq::empty()]
    } else {
        let before = pieces(line.drop_last());
        if char_is_whitespace(line.last()) {
            before.push(Seq::empty())
        } else {
            before.update(before.len() - 1, before.last().push(line.last()))
        }
    }
}

/// The white-space characters of a line, in order.
pub open spec fn cuts(line: Seq<char>) -> Seq<char>
    decreases line.len(),
{
    if line.len() == 0 {
        Seq::empty()
    } else if char_is_whitespace(line.last()) {
        cuts(line.drop_last()).push(line.last())
    } else {
        cuts(line.drop_last())
    }
}

/// The first `n` tokens, each followed by the separator of the same index.
pub open spec fn interleaved(tokens: Seq<Seq<char>>, splits: Seq<char>, n: nat) -> Seq<char>
    decreases n,
{
    if n == 0 {
        Seq::empty()
    } else {
        interleaved(tokens, splits, (n - 1) as nat) + tokens[n - 1].push(splits[n - 1])
    }
}

/// The smaller of two lengths.
pub open spec fn shorter(a: nat, b: nat) -> nat {
    if a <= b {
        a
    } else {
        b
    }
}

/// Tokens and separators put together again: every token that has a
/// separator of the same index, followed by it, and the last separator
/// taken off the end.
pub open spec fn rejoined(tokens: Seq<Seq<char>>, splits: Seq<char>) -> Seq<char> {
    let all = interleaved(tokens, splits, shorter(tokens.len(), splits.len()));
    if all.len() > 0 {
        all.drop_last()
    } else {
        all
    }
}

/// The texts of a sequence of strings.
pub open spec fn texts(tokens: Seq<String>) -> Seq<Seq<char>> {
    tokens.map_values(|t: String| t@)
}

/// The texts of a sequence of string slices.
pub open spec fn slice_texts(tokens: Seq<&str>) -> Seq<Seq<char>> {
    tokens.map_values(|t: &str| t@)
}

/// Puts tokens and the separators between them together again. The
/// shorter of the two bounds how many pairs are used, and the last
/// separator written is taken off.
pub fn rejoin(s: &[&str], splits: &[char]) -> (out: String)
    ensures
        out@ == rejoined(slice_texts(s@), splits@),
{
    let n = if s.len() <= splits.len() {
        s.len()
    } else {
        splits.len()
    };
    let mut out = String::new();
    let mut i: usize = 0;
    while i < n
        invariant
            i <= n,
            n == shorter(s@.len(), splits@.len()),
            out@ == interleaved(slice_texts(s@), splits@, i as nat),
        decreases n - i,
    {
        out.append(s[i]);
        push_char(&mut out, splits[i]);
        i += 1;
    }
    drop_last_char(out)
}

/// The same as `rejoin`, for owned tokens and starting at token `from`.
pub fn rejoin_from(tokens: &Vec<String>, splits: &Vec<char>, from: usize) -> (out: String)
    requires
        from <= tokens.len(),
        from <= splits.len(),
    ensures
        out@ == rejoined(texts(tokens@).skip(from as int), splits@.skip(from as int)),
{
    let n = if tokens.len() <= splits.len() {
        tokens.len()
    } else {
        splits.len()
    };
    let ghost t = texts(tokens@).skip(from as int);
    let ghost s = splits@.skip(from as int);
    let mut out = String::new();
    let mut i: usize = from;
    while i < n
        invariant
            from <= i <= n,
            n == shorter(tokens@.len(), splits@.len()),
            t == texts(tokens@).skip(from as int),
            s == splits@.skip(from as int),
            out@ == interleaved(t, s, (i - from) as nat),
        decreases n - i,
    {
        out.append(tokens[i].as_str());
        push_char(&mut out, splits[i]);
        i += 1;
    }
    drop_last_char(out)
}

/// The string without its last character, if it has one.
fn drop_last_char(s: String) -> (out: String)
    ensures
        out@ == if s@.len() > 0 {
            s@.drop_last()
        } else {
            s@
        },
{
    let n = s.as_str().unicode_len();
    if n > 0 {
        String::from_str(s.as_str().substring_char(0, n - 1))
    } else {
        s
    }
}

/// The text between the first and the last character; empty where there
/// are fewer than two.
pub fn strip_one(s: &str) -> (out: String)
    ensures
        out@ == inner(s@),
{
    let n = s.unicode_len();
    if n >= 2 {
        String::from_str(s.substring_char(1, n - 1))
    } else {
        String::new()
    }
}

/// Cuts a line at every white-space character. Returns the tokens and the
/// characters they were cut at.
pub fn tokenize(line: &str) -> (r: (Vec<String>, Vec<char>))
    ensures
        texts(r.0@) == pieces(line@),
        r.1@ == cuts(line@),
        r.0.len() == r.1.len() + 1,
{
    let mut tokens: Vec<String> = Vec::new();
    let mut splits: Vec<char> = Vec::new();
    let mut current = String::new();
    proof {
        assert(line@.take(0) =~= Seq::empty());
    }
    for c in it: line.chars()
        invariant
            it.seq() == line@,
            texts(tokens@).push(current@) == pieces(line@.take(it.index() as int)),
            splits@ == cuts(line@.take(it.index() as int)),
            tokens.len() == splits.len(),
    {
        proof {
            let i = it.index() as int;
            assert(line@.take(i + 1).drop_last() =~= line@.take(i));
            assert(line@.take(i + 1).last() == c);
        }
        let ghost before = texts(tokens@).push(current@);
        if is_whitespace(c) {
            tokens.push(current);
            splits.push(c);
            current = String::new();
            proof {
                assert(texts(tokens@).push(current@) =~= before.push(Seq::empty()));
            }
        } else {
            push_char(&mut current, c);
            proof {
                assert(texts(tokens@).push(current@) =~= before.update(
                    before.len() - 1,
                    before.last().push(c),
                ));
            }
        }
    }
    proof {
        assert(line@.take(line@.len() as int) =~= line@);
    }
    let ghost before = texts(tokens@).push(current@);
    tokens.push(current);
    proof {
        assert(texts(tokens@) =~= before);
    }
    (tokens, splits)
}


/// The dialects that can be chosen by name.
#[derive(Clone, Copy, Debug, PartialEq, Eq, Structural)]
pub enum Format {
    Energymech,
    Weechat,
}

/// The dialect that goes by a name: `energymech` or `em`, `weechat` or
/// `w`. No other name is known.
pub open spec fn format_named(name: Seq<char>) -> Option<Format> {
    if name == "energymech"@ || name == "em"@ {
        Some(Format::Energymech)
    } else if name == "weechat"@ || name == "w"@ {
        Some(Format::Weechat)
    } else {
        None
    }
}

/// The decoder that goes by the name, if the name is known.
pub fn decoder(format: &str) -> (r: Option<Format>)
    ensures
        r == format_named(format@),
{
    if str_eq(format, "energymech") || str_eq(format, "em") {
        Some(Format::Energymech)
    } else if str_eq(format, "weechat") || str_eq(format, "w") {
        Some(Format::Weechat)
    } else {
        None
    }
}

/// The encoder that goes by the name, if the name is known.
pub fn encoder(format: &str) -> (r: Option<Format>)
    ensures
        r == format_named(format@),
{
    decoder(format)
}

impl Decode for Format {
    open spec fn decoded(&self, context: ContextView, line: Seq<char>) -> Option<
        Result<EventView, ErrorView>,
    > {
        match *self {
            Format::Energymech => Energymech.decoded(context, line),
            Format::Weechat => Weechat.decoded(context, line),
        }
    }

    fn decode(&self, context: &Context, line: &str) -> (r: Option<Result<Event, Error>>) {
        match self {
            Format::Energymech => Energymech.decode(context, line),
            Format::Weechat => Weechat.decode(context, line),
        }
    }
}

impl Encode for Format {
    open spec fn encoded(&self, context: ContextView, event: EventView) -> Result<
        Seq<char>,
        ErrorView,
    > {
        match *self {
            Format::Energymech => Energymech.encoded(context, event),
            Format::Weechat => Weechat.encoded(context, event),
        }
    }

    fn encode(&self, context: &Context, event: &Event) -> (r: Result<String, Error>) {
        match self {
            Format::Energymech => Energymech.encode(context, event),
            Format::Weechat => Weechat.encode(context, event),
        }
    }
}

} // verus!
