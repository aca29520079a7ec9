use ilc::ageset::{hash_signature, AgeSet, Aged, Keyed};
use ilc::chain::{Chain, Next};
use ilc::context::Context;
use ilc::convert::{convert_line, judge_text, Filter, Operator, Subject};
use ilc::error::Error;
use ilc::event::{Event, Time, Type};
use ilc::format::energymech::{time_from_reading, Energymech};
use ilc::format::weechat::Weechat;
use ilc::format::{decoder, encoder, Decode, Dummy, Encode, Format};
use ilc::lazy::Lazy;
use ilc::seen::Seen;
use ilc::stats::Stats;
use std::cell::Cell;

fn s(x: &str) -> String {
    x.to_string()
}

fn probe(event: Event) -> Aged {
    Aged { stamp: 0, event }
}

fn msg_at(stamp: i64, from: &str, content: &str) -> Event {
    Event {
        ty: Type::Msg { from: s(from), content: s(content) },
        time: Time::Timestamp(stamp),
        channel: None,
    }
}

#[test]
fn formats_by_name() {
    assert_eq!(decoder("energymech"), Some(Format::Energymech));
    assert_eq!(decoder("em"), Some(Format::Energymech));
    assert_eq!(decoder("weechat"), Some(Format::Weechat));
    assert_eq!(decoder("w"), Some(Format::Weechat));
    assert_eq!(encoder("em"), Some(Format::Energymech));
    assert_eq!(encoder("w"), Some(Format::Weechat));
    assert_eq!(decoder("binary"), None);
    assert_eq!(decoder("msgpack"), None);
    assert_eq!(encoder("irssi"), None);
    assert_eq!(decoder(""), None);
    assert_eq!(decoder("Energymech"), None);
}

#[test]
fn a_format_by_name_does_what_its_dialect_does() {
    let ctx = Context::default();
    let line = "[21:53:49] <Foo> hi there\n";
    assert_eq!(Format::Energymech.decode(&ctx, line), Energymech.decode(&ctx, line));
    let line = "2016-01-24 20:32:25\tnick\thello you\n";
    assert_eq!(Format::Weechat.decode(&ctx, line), Weechat.decode(&ctx, line));
    let e = msg_at(1453667545, "nick", "hello you");
    assert_eq!(Format::Weechat.encode(&ctx, &e), Weechat.encode(&ctx, &e));
    assert_eq!(Format::Energymech.encode(&ctx, &e), Ok(s("[20:32:25] <nick> hello you\n")));
}

#[test]
fn one_line_at_a_time() {
    let ctx = Context::default();
    let only_alice = Filter(Subject::Nick, Operator::Exactly(s("alice")));
    let line = "[00:00:01] <alice> one\n";
    assert_eq!(convert_line(&ctx, line, &Energymech, &Energymech, None, false), Ok(s(line)));
    assert_eq!(
        convert_line(&ctx, line, &Energymech, &Energymech, Some(&only_alice), false),
        Ok(s(line))
    );
    assert_eq!(
        convert_line(&ctx, line, &Energymech, &Energymech, Some(&only_alice), true),
        Ok(String::new())
    );
    assert_eq!(
        convert_line(&ctx, "nothing\n", &Energymech, &Energymech, None, false),
        Err(Error::Parse(s("nothing\n")))
    );
    assert_eq!(
        convert_line(&ctx, "nothing\n", &Dummy, &Energymech, None, false),
        Ok(String::new())
    );
    assert_eq!(
        convert_line(&ctx, "nothing\n", &Weechat, &Energymech, None, false),
        Err(Error::Parse(s("nothing\n")))
    );
    let late = Filter(Subject::Time, Operator::Greater(1453667545));
    let line = "2016-01-24 20:32:26\tnick\tbye now\n";
    assert_eq!(convert_line(&ctx, line, &Weechat, &Weechat, Some(&late), false), Ok(s(line)));
    assert_eq!(convert_line(&ctx, line, &Weechat, &Weechat, Some(&late), true), Ok(String::new()));
}

#[test]
fn seen_one_event_at_a_time() {
    let mut run = Seen::new("alice");
    run.observe(msg_at(5, "alice", "five"), 5);
    run.observe(msg_at(9, "bob", "nine"), 9);
    run.observe(msg_at(7, "carol", "hello alice"), 7);
    run.observe(msg_at(7, "alice", "seven too"), 7);
    run.observe(msg_at(6, "alice", "six"), 6);
    assert_eq!(run.finish(), Some(msg_at(7, "carol", "hello alice")));
    let mut run = Seen::new("dave");
    run.observe(msg_at(5, "alice", "five"), 5);
    assert_eq!(run.finish(), None);
    assert_eq!(Seen::new("x").finish(), None);
}

#[test]
fn chain_hands_out_the_front() {
    let mut c = Chain::new(vec![1u8, 2, 3]);
    assert_eq!(c.index(), 0);
    *c.current_mut().unwrap() = 10;
    assert_eq!(c.current(), Some(&10));
    assert_eq!(c.after_transfer(0), Next::Retry);
    assert_eq!(c.index(), 1);
    assert_eq!(c.current_mut(), Some(&mut 2));
    assert_eq!(c.after_transfer(0), Next::Retry);
    assert_eq!(c.after_transfer(0), Next::Retry);
    assert_eq!(c.index(), 3);
    assert_eq!(c.current_mut(), None);
    assert_eq!(c.into_parts(), (vec![10, 2, 3], 3));
}

#[test]
fn codes_follow_signatures() {
    let a = msg_at(1, "alice", "hi");
    let b = msg_at(2, "alice", "hi");
    assert_eq!(hash_signature(&a), hash_signature(&b));
    // Where one field ends and the next begins is part of the code.
    assert_ne!(hash_signature(&msg_at(1, "ab", "c")), hash_signature(&msg_at(1, "a", "bc")));
    assert_ne!(hash_signature(&msg_at(1, "alice", "hi")), hash_signature(&msg_at(1, "alice", "ho")));
    let mut c = a.clone();
    c.channel = Some(s(""));
    assert_ne!(hash_signature(&a), hash_signature(&c));
    let action = Event {
        ty: Type::Action { from: s("alice"), content: s("hi") },
        time: Time::Unknown,
        channel: None,
    };
    assert_ne!(hash_signature(&a), hash_signature(&action));
    let j1 = Event { ty: Type::Join { nick: s("n"), mask: None }, time: Time::Unknown, channel: None };
    let j2 = Event {
        ty: Type::Join { nick: s("n"), mask: Some(s("")) },
        time: Time::Unknown,
        channel: None,
    };
    assert_ne!(hash_signature(&j1), hash_signature(&j2));
}

#[test]
fn age_set_keeps_count_of_equal_entries() {
    let mut set = AgeSet::new();
    for stamp in 0..100 {
        set.push(Aged { stamp, event: msg_at(stamp, "a", "x") });
        set.push(Aged { stamp, event: msg_at(stamp, "b", &stamp.to_string()) });
    }
    assert_eq!(set.len(), 200);
    assert!(set.contains(&probe(msg_at(0, "a", "x"))));
    assert!(set.contains(&probe(msg_at(0, "b", "42"))));
    // All but the last of the equal entries go; the signature is still there.
    set.prune(|a: &Aged| a.stamp < 99);
    assert_eq!(set.len(), 2);
    assert!(set.contains(&probe(msg_at(0, "a", "x"))));
    assert!(!set.contains(&probe(msg_at(0, "b", "42"))));
    assert!(set.contains(&probe(msg_at(0, "b", "99"))));
    set.prune(|a: &Aged| a.event.ty.actor() == Some("a"));
    assert_eq!(set.len(), 1);
    assert!(!set.contains(&probe(msg_at(0, "a", "x"))));
    set.prune(|_: &Aged| true);
    assert_eq!(set.len(), 0);
    assert!(!set.contains(&probe(msg_at(0, "b", "99"))));
    set.push(Aged { stamp: 1, event: msg_at(1, "b", "99") });
    assert!(set.contains(&probe(msg_at(0, "b", "99"))));
}

#[test]
fn lazy_value_is_computed_once_and_late() {
    let calls = Cell::new(0);
    let mut l = Lazy::new(|| {
        calls.set(calls.get() + 1);
        42
    });
    assert_eq!(calls.get(), 0);
    assert_eq!(*l.value(), 42);
    assert_eq!(calls.get(), 1);
    l.force();
    assert_eq!(*l.value(), 42);
    assert_eq!(calls.get(), 1);
    assert_eq!(l.unwrap(), 42);
    assert_eq!(calls.get(), 1);
    let l = Lazy::new(|| {
        calls.set(calls.get() + 1);
        s("late")
    });
    assert_eq!(l.unwrap(), "late");
    assert_eq!(calls.get(), 2);
}

#[test]
fn lazy_value_that_is_there_from_the_start() {
    let mut l: Lazy<u8, fn() -> u8> = Lazy::ready(7);
    l.force();
    assert_eq!(*l.value(), 7);
    assert_eq!(l.unwrap(), 7);
}

#[test]
fn what_follows_the_calendar() {
    assert_eq!(Time::from_stamp(Some(-9)), Time::Timestamp(-9));
    assert_eq!(Time::from_stamp(None), Time::Unknown);
    assert_eq!(Time::written(Some(s("21:53"))), Ok(s("21:53")));
    assert_eq!(Time::written(None), Err(Error::TimeFormat));
    assert_eq!(time_from_reading(false, (1, 2, 3), Some(5)), Time::Hms(1, 2, 3));
    assert_eq!(time_from_reading(true, (1, 2, 3), Some(5)), Time::Timestamp(5));
    assert_eq!(time_from_reading(true, (1, 2, 3), None), Time::Unknown);
}

#[test]
fn what_follows_the_pattern() {
    let matches = Operator::Matches(s("a+"));
    assert!(judge_text(&matches, Some("x"), Some(true)));
    assert!(!judge_text(&matches, Some("x"), Some(false)));
    assert!(!judge_text(&matches, Some("x"), None));
    assert!(!judge_text(&matches, None, Some(true)));
    let exactly = Operator::Exactly(s("x"));
    assert!(judge_text(&exactly, Some("x"), None));
    assert!(!judge_text(&exactly, Some("y"), Some(true)));
    assert!(!judge_text(&Operator::Equal(0), Some("0"), Some(true)));
}

#[test]
fn booking_a_slot() {
    let mut st = Stats::new();
    st.book_slot(Some((0, 0)));
    st.book_slot(Some((6, 23)));
    st.book_slot(Some((6, 23)));
    st.book_slot(None);
    st.book_slot(Some((7, 0)));
    st.book_slot(Some((0, 24)));
    let mut want = [[0u32; 24]; 7];
    want[0][0] = 1;
    want[6][23] = 2;
    assert_eq!(st.week(), want);
    assert_eq!(st.len(), 0);
}

#[test]
fn a_window_of_another_kind_of_entry() {
    // Whatever has a key and a code can be kept; here an entry is found by its event alone.
    let mut set: AgeSet<Aged> = AgeSet::new();
    set.push(Aged { stamp: 7, event: msg_at(7, "a", "x") });
    assert!(set.contains(&Aged { stamp: -1, event: msg_at(99, "a", "x") }));
    assert!(Aged { stamp: 1, event: msg_at(1, "a", "x") }
        .same_key(&Aged { stamp: 2, event: msg_at(2, "a", "x") }));
    assert_eq!(
        Aged { stamp: 1, event: msg_at(1, "a", "x") }.code(),
        hash_signature(&msg_at(5, "a", "x"))
    );
}
