//! The errors that decoding, encoding and time rendering report.

use vstd::prelude::*;

verus! {

/// A field that a dialect needs in order to write an event.
#[derive(Clone, Copy, Debug, PartialEq, Eq, Hash, Structural)]
pub enum Field {
    Nick,
    Mask,
    Reason,
    Channel,
    Kicker,
    Message,
}

/// What can go wrong between a line of text and an event, in either
/// direction.
#[derive(Clone, Debug, PartialEq, Eq)]
pub enum Error {
    /// The line, kept as it was read, fits no rule of the dialect.
    Parse(String),
    /// A time had to be written, and the event carries `Time::Unknown`.
    MissingTimeData,
    /// The time cannot be written with the pattern and zone at hand.
    TimeFormat,
    /// The dialect cannot write the event without this field.
    MissingField(Field),
}

/// An `Error` with its text taken as a sequence of characters.
pub enum ErrorView {
    Parse(Seq<char>),
    MissingTimeData,
    TimeFormat,
    MissingField(Field),
}

impl View for Error {
    type V = ErrorView;

    open spec fn view(&self) -> ErrorView {
        match *self {
            Error::Parse(line) => ErrorView::Parse(line@),
            Error::MissingTimeData => ErrorView::MissingTimeData,
            Error::TimeFormat => ErrorView::TimeFormat,
            Error::MissingField(field) => ErrorView::MissingField(field),
        }
    }
}

/// The name of a field, as it appears in an error's description.
pub open spec fn field_name(field: Field) -> Seq<char> {
    match field {
        Field::Nick => "nick"@,
        Field::Mask => "mask"@,
        Field::Reason => "reason"@,
        Field::Channel => "channel"@,
        Field::Kicker => "kicker"@,
        Field::Message => "message"@,
    }
}

/// The one-line description of each kind of error.
pub open spec fn description_of(e: ErrorView) -> Seq<char> {
    match e {
        ErrorView::Parse(_) => "error while parsing"@,
        ErrorView::MissingTimeData => "time data for this event is not present"@,
        ErrorView::TimeFormat => "error while formatting time strings"@,
        ErrorView::MissingField(_) => "a required field is not present"@,
    }
}

impl Field {
    /// The field's name in lower case.
    pub fn name(&self) -> (r: &'static str)
        ensures
            r@ == field_name(*self),
    {
        match self {
            Field::Nick => "nick",
            Field::Mask => "mask",
            Field::Reason => "reason",
            Field::Channel => "channel",
            Field::Kicker => "kicker",
            Field::Message => "message",
        }
    }
}

impl Error {
    /// A short, fixed description of the kind of error.
    pub fn description(&self) -> (r: &'static str)
        ensures
            r@ == description_of(self@),
    {
        match self {
            Error::Parse(_) => "error while parsing",
            Error::MissingTimeData => "time data for this event is not present",
            Error::TimeFormat => "error while formatting time strings",
            Error::MissingField(_) => "a required field is not present",
        }
    }
}

} // verus!
