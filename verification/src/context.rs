//! What a caller fixes for one run: zones, an optional date, a channel.

use vstd::prelude::*;

verus! {

/// A calendar date as written: year, month (1 to 12) and day of the month.
/// Whether the three numbers name a day that exists is decided where the
/// date is used.
#[derive(Clone, Copy, Debug, PartialEq, Eq, Hash, Structural)]
pub struct Date {
    pub year: i32,
    pub month: u32,
    pub day: u32,
}

/// The settings that decoding and encoding read and never change.
///
/// Both zones are fixed offsets, in seconds east of UTC.
#[derive(Clone, Debug, PartialEq, Eq)]
pub struct Context {
    /// The zone in which times read from the input are meant.
    pub timezone_in: i32,
    /// The zone in which times are written.
    pub timezone_out: i32,
    /// The day to assume for input that carries a time of day only.
    pub override_date: Option<Date>,
    /// The channel given to events that name none themselves.
    pub channel: Option<String>,
}

/// A `Context` with its channel taken as a sequence of characters.
pub struct ContextView {
    pub timezone_in: i32,
    pub timezone_out: i32,
    pub override_date: Option<Date>,
    pub channel: Option<Seq<char>>,
}

impl View for Context {
    type V = ContextView;

    open spec fn view(&self) -> ContextView {
        ContextView {
            timezone_in: self.timezone_in,
            timezone_out: self.timezone_out,
            override_date: self.override_date,
            channel: match self.channel {
                Some(c) => Some(c@),
                None => None,
            },
        }
    }
}

impl Default for Context {
    /// UTC on both sides, no date and no channel.
    fn default() -> (c: Context)
        ensures
            c.timezone_in == 0,
            c.timezone_out == 0,
            c.override_date is None,
            c.channel is None,
    {
        Context { timezone_in: 0, timezone_out: 0, override_date: None, channel: None }
    }
}

} // verus!
