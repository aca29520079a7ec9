use ilc::error::{Error, Field};
use ilc::event::{Event, Time, Type};
use std::cmp::Ordering;

fn msg(from: &str, content: &str) -> Type {
    Type::Msg { from: from.to_string(), content: content.to_string() }
}

#[test]
fn unknown_time_compares_with_nothing() {
    assert_eq!(Time::Unknown.partial_cmp(&Time::Unknown), None);
    assert_eq!(Time::Unknown.partial_cmp(&Time::Timestamp(5)), None);
    assert_eq!(Time::Timestamp(5).partial_cmp(&Time::Unknown), None);
    assert_eq!(Time::Hms(1, 2, 3).partial_cmp(&Time::Unknown), None);
    assert!(!(Time::Unknown < Time::Timestamp(1)));
    assert!(!(Time::Unknown > Time::Timestamp(1)));
}

#[test]
fn absolute_times_compare_as_numbers() {
    assert_eq!(Time::Timestamp(1).partial_cmp(&Time::Timestamp(2)), Some(Ordering::Less));
    assert_eq!(Time::Timestamp(2).partial_cmp(&Time::Timestamp(2)), Some(Ordering::Equal));
    assert_eq!(Time::Timestamp(3).partial_cmp(&Time::Timestamp(2)), Some(Ordering::Greater));
    assert!(Time::Timestamp(-7) < Time::Timestamp(0));
    assert!(Time::Timestamp(1).is_earlier(&Time::Timestamp(2)));
    assert!(!Time::Timestamp(2).is_earlier(&Time::Timestamp(2)));
}

#[test]
fn times_of_day_compare_by_dominance() {
    assert_eq!(Time::Hms(10, 0, 1).partial_cmp(&Time::Hms(10, 0, 0)), Some(Ordering::Greater));
    assert_eq!(Time::Hms(10, 1, 0).partial_cmp(&Time::Hms(10, 0, 0)), Some(Ordering::Greater));
    assert_eq!(Time::Hms(11, 0, 0).partial_cmp(&Time::Hms(10, 0, 0)), Some(Ordering::Greater));
    assert_eq!(Time::Hms(10, 0, 0).partial_cmp(&Time::Hms(10, 0, 0)), Some(Ordering::Less));
    // One hour later but fewer minutes: no dominance, so "less" both ways.
    assert_eq!(Time::Hms(11, 0, 0).partial_cmp(&Time::Hms(10, 59, 0)), Some(Ordering::Less));
    assert_eq!(Time::Hms(10, 59, 0).partial_cmp(&Time::Hms(11, 0, 0)), Some(Ordering::Less));
}

#[test]
fn time_of_day_and_absolute_time_do_not_compare() {
    assert_eq!(Time::Hms(1, 2, 3).partial_cmp(&Time::Timestamp(0)), None);
    assert_eq!(Time::Timestamp(0).partial_cmp(&Time::Hms(1, 2, 3)), None);
    assert!(!Time::Hms(1, 2, 3).is_earlier(&Time::Timestamp(0)));
}

#[test]
fn as_timestamp_of_fixed_times() {
    assert_eq!(Time::Unknown.as_timestamp(), 0);
    assert_eq!(Time::Timestamp(1456523629).as_timestamp(), 1456523629);
    assert_eq!(Time::Timestamp(-5).to_timestamp(), Time::Timestamp(-5));
    assert_eq!(Time::Unknown.to_timestamp(), Time::Timestamp(0));
}

#[test]
fn absolute_time_given_what_the_clock_says() {
    assert_eq!(Time::Unknown.resolve_with(Some(7)), 0);
    assert_eq!(Time::Unknown.resolve_with(None), 0);
    assert_eq!(Time::Timestamp(-3).resolve_with(Some(7)), -3);
    assert_eq!(Time::Timestamp(5).resolve_with(None), 5);
    assert_eq!(Time::Hms(1, 2, 3).resolve_with(Some(7)), 7);
    assert_eq!(Time::Hms(1, 2, 3).resolve_with(None), 0);
    // An hour that no day has counts as zero.
    assert_eq!(Time::Hms(24, 0, 0).as_timestamp(), 0);
}

#[test]
fn as_timestamp_of_a_time_of_day_is_on_the_current_day() {
    let a = Time::Hms(0, 0, 0).as_timestamp();
    let b = Time::Hms(0, 0, 30).as_timestamp();
    // Both readings are on the same day unless midnight passes in between.
    assert!(b - a == 30 || (b - a - 30).abs() >= 82_800);
    assert!(a > 1_000_000_000);
    assert!(matches!(Time::Hms(12, 0, 0).to_timestamp(), Time::Timestamp(_)));
}

#[test]
fn time_is_read_with_a_pattern() {
    let t = Time::from_format(0, "2016-02-26 21:53:49", "%Y-%m-%d %H:%M:%S");
    assert_eq!(t, Time::Timestamp(1456523629));
    // One hour east of UTC the same wall clock is one hour earlier.
    let t = Time::from_format(3600, "2016-02-26 21:53:49", "%Y-%m-%d %H:%M:%S");
    assert_eq!(t, Time::Timestamp(1456520029));
}

#[test]
fn unreadable_time_is_unknown() {
    assert_eq!(Time::from_format(0, "yesterday", "%Y-%m-%d %H:%M:%S"), Time::Unknown);
    assert_eq!(Time::from_format(0, "2016-02-30 21:53:49", "%Y-%m-%d %H:%M:%S"), Time::Unknown);
    assert_eq!(Time::from_format(90_000, "2016-02-26 21:53:49", "%Y-%m-%d %H:%M:%S"), Time::Unknown);
}

#[test]
fn time_is_written_with_a_pattern() {
    assert_eq!(Time::Hms(21, 53, 49).with_format(0, "%H:%M:%S"), Ok("21:53:49".to_string()));
    assert_eq!(Time::Hms(1, 2, 3).with_format(7200, "%H.%M"), Ok("01.02".to_string()));
    assert_eq!(
        Time::Timestamp(1456523629).with_format(0, "%Y-%m-%d %H:%M:%S"),
        Ok("2016-02-26 21:53:49".to_string())
    );
    assert_eq!(
        Time::Timestamp(1456523629).with_format(3600, "%Y-%m-%d %H:%M:%S"),
        Ok("2016-02-26 22:53:49".to_string())
    );
    assert_eq!(
        Time::Timestamp(1456523629).with_format(-3600, "%H:%M"),
        Ok("20:53".to_string())
    );
}

#[test]
fn unknown_time_cannot_be_written() {
    assert_eq!(Time::Unknown.with_format(0, "%H:%M:%S"), Err(Error::MissingTimeData));
}

#[test]
fn time_that_does_not_fit_the_pattern_is_an_error() {
    // A time of day has no year.
    assert_eq!(Time::Hms(1, 2, 3).with_format(0, "%Y"), Err(Error::TimeFormat));
    // There is no hour 25.
    assert_eq!(Time::Hms(25, 0, 0).with_format(0, "%H:%M:%S"), Err(Error::TimeFormat));
    // No zone lies a day and more from UTC.
    assert_eq!(Time::Timestamp(0).with_format(86_400, "%H"), Err(Error::TimeFormat));
}

#[test]
fn error_descriptions() {
    assert_eq!(Error::Parse("x".to_string()).description(), "error while parsing");
    assert_eq!(Error::MissingTimeData.description(), "time data for this event is not present");
    assert_eq!(Error::TimeFormat.description(), "error while formatting time strings");
    assert_eq!(Error::MissingField(Field::Mask).description(), "a required field is not present");
    assert_eq!(Field::Nick.name(), "nick");
    assert_eq!(Field::Mask.name(), "mask");
    assert_eq!(Field::Reason.name(), "reason");
    assert_eq!(Field::Channel.name(), "channel");
    assert_eq!(Field::Kicker.name(), "kicker");
    assert_eq!(Field::Message.name(), "message");
}

#[test]
fn actor_of_each_kind() {
    let s = |x: &str| x.to_string();
    assert_eq!(Type::Connect.actor(), None);
    assert_eq!(Type::Disconnect.actor(), None);
    assert_eq!(msg("a", "b").actor(), Some("a"));
    assert_eq!(Type::Action { from: s("a"), content: s("b") }.actor(), Some("a"));
    assert_eq!(Type::Join { nick: s("n"), mask: None }.actor(), Some("n"));
    assert_eq!(Type::Part { nick: s("n"), mask: None, reason: None }.actor(), Some("n"));
    assert_eq!(Type::Quit { nick: s("n"), mask: None, reason: None }.actor(), Some("n"));
    assert_eq!(Type::Nick { old_nick: s("o"), new_nick: s("n") }.actor(), Some("o"));
    assert_eq!(Type::Notice { from: s("a"), content: s("b") }.actor(), Some("a"));
    assert_eq!(
        Type::Kick { kicked_nick: s("v"), kicking_nick: Some(s("k")), kick_message: None }.actor(),
        Some("k")
    );
    assert_eq!(
        Type::Kick { kicked_nick: s("v"), kicking_nick: None, kick_message: None }.actor(),
        None
    );
    assert_eq!(Type::Topic { topic: s("t") }.actor(), None);
    assert_eq!(Type::TopicChange { nick: Some(s("n")), new_topic: s("t") }.actor(), Some("n"));
    assert_eq!(Type::TopicChange { nick: None, new_topic: s("t") }.actor(), None);
    assert_eq!(Type::Mode { nick: Some(s("n")), mode: s("+v"), masks: s("m") }.actor(), Some("n"));
    assert_eq!(Type::Mode { nick: None, mode: s("+v"), masks: s("m") }.actor(), None);
}

#[test]
fn text_of_each_kind() {
    let s = |x: &str| x.to_string();
    assert_eq!(Type::Connect.text(), None);
    assert_eq!(msg("a", "b").text(), Some("b"));
    assert_eq!(Type::Action { from: s("a"), content: s("b") }.text(), Some("b"));
    assert_eq!(Type::Join { nick: s("n"), mask: Some(s("m")) }.text(), None);
    assert_eq!(Type::Part { nick: s("n"), mask: None, reason: Some(s("r")) }.text(), Some("r"));
    assert_eq!(Type::Part { nick: s("n"), mask: None, reason: None }.text(), None);
    assert_eq!(Type::Quit { nick: s("n"), mask: None, reason: Some(s("r")) }.text(), Some("r"));
    assert_eq!(Type::Nick { old_nick: s("o"), new_nick: s("n") }.text(), None);
    assert_eq!(Type::Notice { from: s("a"), content: s("b") }.text(), Some("b"));
    assert_eq!(
        Type::Kick { kicked_nick: s("v"), kicking_nick: None, kick_message: Some(s("x")) }.text(),
        Some("x")
    );
    assert_eq!(Type::Topic { topic: s("t") }.text(), Some("t"));
    assert_eq!(Type::TopicChange { nick: None, new_topic: s("t") }.text(), Some("t"));
    assert_eq!(Type::Mode { nick: None, mode: s("+v"), masks: s("m") }.text(), None);
}

#[test]
fn tag_of_each_kind() {
    let s = |x: &str| x.to_string();
    assert_eq!(Type::Connect.type_desc(), "connect");
    assert_eq!(Type::Disconnect.type_desc(), "disconnect");
    assert_eq!(msg("a", "b").type_desc(), "message");
    assert_eq!(Type::Action { from: s("a"), content: s("b") }.type_desc(), "action");
    assert_eq!(Type::Join { nick: s("n"), mask: None }.type_desc(), "join");
    assert_eq!(Type::Part { nick: s("n"), mask: None, reason: None }.type_desc(), "part");
    assert_eq!(Type::Quit { nick: s("n"), mask: None, reason: None }.type_desc(), "quit");
    assert_eq!(Type::Nick { old_nick: s("o"), new_nick: s("n") }.type_desc(), "nick");
    assert_eq!(Type::Notice { from: s("a"), content: s("b") }.type_desc(), "notice");
    assert_eq!(
        Type::Kick { kicked_nick: s("v"), kicking_nick: None, kick_message: None }.type_desc(),
        "kick"
    );
    assert_eq!(Type::Topic { topic: s("t") }.type_desc(), "topic");
    assert_eq!(Type::TopicChange { nick: None, new_topic: s("t") }.type_desc(), "topic_change");
    assert_eq!(Type::Mode { nick: None, mode: s("+v"), masks: s("m") }.type_desc(), "mode");
}

#[test]
fn involves_takes_nicks_exactly_and_texts_by_content() {
    let s = |x: &str| x.to_string();
    let m = msg("alice", "hello bob, how are you");
    assert!(m.involves("alice"));
    assert!(!m.involves("alic"));
    assert!(m.involves("bob"));
    assert!(m.involves("how are"));
    assert!(!m.involves("carol"));
    assert!(m.involves(""));
    let j = Type::Join { nick: s("alice"), mask: Some(s("bob@host")) };
    assert!(j.involves("alice"));
    assert!(!j.involves("bob"));
    assert!(!j.involves(""));
    let p = Type::Part { nick: s("alice"), mask: None, reason: Some(s("gone to bob")) };
    assert!(p.involves("bob"));
    assert!(!Type::Part { nick: s("alice"), mask: None, reason: None }.involves("bob"));
    let q = Type::Quit { nick: s("alice"), mask: None, reason: Some(s("ping timeout")) };
    assert!(q.involves("timeout"));
    assert!(q.involves("alice"));
    let n = Type::Nick { old_nick: s("alice"), new_nick: s("alice_") };
    assert!(n.involves("alice"));
    assert!(n.involves("alice_"));
    assert!(!n.involves("lice"));
    let k = Type::Kick {
        kicked_nick: s("troll"),
        kicking_nick: Some(s("op")),
        kick_message: Some(s("flooding the channel")),
    };
    assert!(k.involves("troll"));
    assert!(k.involves("op"));
    assert!(k.involves("flooding"));
    assert!(!k.involves("tro"));
    let t = Type::TopicChange { nick: Some(s("op")), new_topic: s("welcome all") };
    assert!(t.involves("op"));
    assert!(t.involves("come"));
    assert!(!t.involves("p"));
    let mo = Type::Mode { nick: Some(s("ChanServ")), mode: s("+v"), masks: s("alice") };
    assert!(mo.involves("ChanServ"));
    assert!(!mo.involves("alice"));
    assert!(!Type::Topic { topic: s("alice") }.involves("alice"));
    assert!(!Type::Connect.involves(""));
    assert!(!Type::Disconnect.involves("x"));
}

#[test]
fn same_and_duplicate() {
    let a = Event { ty: msg("a", "b"), time: Time::Timestamp(1), channel: Some("#c".to_string()) };
    let b = Event { ty: msg("a", "b"), time: Time::Timestamp(9), channel: Some("#c".to_string()) };
    let c = Event { ty: msg("a", "b"), time: Time::Timestamp(1), channel: None };
    let d = Event { ty: msg("a", "x"), time: Time::Timestamp(1), channel: Some("#c".to_string()) };
    assert!(a.same_signature(&b));
    assert!(!a.same_signature(&c));
    assert!(!a.same_signature(&d));
    assert_eq!(a.duplicate(), a);
    assert!(a.ty.same(&b.ty));
    assert!(!a.ty.same(&d.ty));
    assert!(!a.ty.same(&Type::Connect));
    assert!(Type::Connect.same(&Type::Connect));
    assert!(!Type::Connect.same(&Type::Disconnect));
    let j1 = Type::Join { nick: "n".to_string(), mask: None };
    let j2 = Type::Join { nick: "n".to_string(), mask: Some(String::new()) };
    assert!(!j1.same(&j2));
    assert_eq!(j2.duplicate(), j2);
}
