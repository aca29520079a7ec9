use ilc::ageset::{AgeSet, Aged};
use ilc::chain::{Chain, Next};
use ilc::context::Context;
use ilc::convert::{convert, Filter, Operator, Subject};
use ilc::dedup::{dedup, dedup_events, Dedup, DEFAULT_MAX_AGE};
use ilc::error::Error;
use ilc::event::{Event, Time, Type};
use ilc::format::energymech::Energymech;
use ilc::format::weechat::Weechat;
use ilc::merge::{choose_earliest, merge, merge_events};
use ilc::parse::parse;
use ilc::seen::{find_last_seen, seen};
use ilc::sort::{sort, sort_events, sort_ranks};
use ilc::stats::{
    add_capped, freq, stats, strip_nick, strip_nick_prefix, tally, words, words_alpha, NickStat,
    Stats,
};
use ilc::stream::{decode_all, decode_events, encode_all, resolve, split_lines};

fn s(x: &str) -> String {
    x.to_string()
}

fn probe(event: Event) -> Aged {
    Aged { stamp: 0, event }
}

fn msg_at(stamp: i64, from: &str, content: &str) -> Event {
    Event {
        ty: Type::Msg { from: s(from), content: s(content) },
        time: Time::Timestamp(stamp),
        channel: None,
    }
}

fn join_at(stamp: i64, nick: &str) -> Event {
    Event { ty: Type::Join { nick: s(nick), mask: None }, time: Time::Timestamp(stamp), channel: None }
}

fn stamps_of(events: &[Event]) -> Vec<i64> {
    events.iter().map(|e| e.time.as_timestamp()).collect()
}

// ---- lines ----

#[test]
fn lines_keep_their_line_feeds() {
    assert_eq!(split_lines(""), Vec::<String>::new());
    assert_eq!(split_lines("a"), vec![s("a")]);
    assert_eq!(split_lines("a\n"), vec![s("a\n")]);
    assert_eq!(split_lines("a\nb"), vec![s("a\n"), s("b")]);
    assert_eq!(split_lines("\n\nx\n"), vec![s("\n"), s("\n"), s("x\n")]);
    assert_eq!(split_lines("a\r\nb\n"), vec![s("a\r\n"), s("b\n")]);
}

#[test]
fn decoding_a_whole_text() {
    let ctx = Context::default();
    let text = "2016-01-24 20:32:25\tnick\thello you\nshort\n2016-01-24 20:32:26\tnick\tbye now\n";
    let items = decode_all(&ctx, text, &Weechat);
    assert_eq!(items.len(), 3);
    assert_eq!(items[1], Err(Error::Parse(s("short\n"))));
    let events = decode_events(&ctx, text, &Weechat);
    assert_eq!(
        events,
        vec![msg_at(1453667545, "nick", "hello you"), msg_at(1453667546, "nick", "bye now")]
    );
    assert_eq!(resolve(&events), vec![1453667545, 1453667546]);
    assert_eq!(
        encode_all(&ctx, &events, &Weechat),
        Ok(s("2016-01-24 20:32:25\tnick\thello you\n2016-01-24 20:32:26\tnick\tbye now\n"))
    );
}

#[test]
fn parse_reports_every_error_and_goes_on() {
    let ctx = Context::default();
    let text = "bad\n2016-01-24 20:32:25\tnick\thello you\nworse\n";
    assert_eq!(parse(&ctx, text, &Weechat), vec![Error::Parse(s("bad\n")), Error::Parse(s("worse\n"))]);
    assert_eq!(
        parse(&ctx, "junk\n[00:00:01] <a> b\nmore junk", &Energymech),
        vec![Error::Parse(s("junk\n")), Error::Parse(s("more junk"))]
    );
    assert_eq!(parse(&ctx, "[00:00:01] <a> b\n", &Energymech), Vec::<Error>::new());
}

// ---- filter and convert ----

#[test]
fn filter_on_nick_contains() {
    let f = Filter(Subject::Nick, Operator::Contains(s("bot")));
    assert!(f.satisfied_by(&msg_at(0, "playbot", "x")));
    assert!(f.satisfied_by(&msg_at(0, "bot", "x")));
    assert!(!f.satisfied_by(&msg_at(0, "alice", "bot")));
    assert!(!f.satisfied_by(&Event { ty: Type::Connect, time: Time::Unknown, channel: None }));
    let kick = Event {
        ty: Type::Kick { kicked_nick: s("bot"), kicking_nick: None, kick_message: None },
        time: Time::Unknown,
        channel: None,
    };
    assert!(!f.satisfied_by(&kick));
}

#[test]
fn filter_on_type_exactly() {
    let f = Filter(Subject::Type, Operator::Exactly(s("join")));
    assert!(f.satisfied_by(&join_at(0, "a")));
    assert!(!f.satisfied_by(&msg_at(0, "join", "join")));
    let g = Filter(Subject::Type, Operator::Contains(s("topic")));
    let e = Event { ty: Type::TopicChange { nick: None, new_topic: s("t") }, time: Time::Unknown, channel: None };
    assert!(g.satisfied_by(&e));
    assert!(!g.satisfied_by(&join_at(0, "topic")));
}

#[test]
fn filter_on_text() {
    let e = msg_at(0, "a", "hello world");
    assert!(Filter(Subject::Text, Operator::Exactly(s("hello world"))).satisfied_by(&e));
    assert!(!Filter(Subject::Text, Operator::Exactly(s("hello"))).satisfied_by(&e));
    assert!(Filter(Subject::Text, Operator::Contains(s("lo wo"))).satisfied_by(&e));
    assert!(!Filter(Subject::Text, Operator::Contains(s("x"))).satisfied_by(&join_at(0, "x")));
}

#[test]
fn filter_with_a_regular_expression() {
    let e = msg_at(0, "alice42", "hello world");
    assert!(Filter(Subject::Nick, Operator::Matches(s("^[a-z]+[0-9]+$"))).satisfied_by(&e));
    assert!(!Filter(Subject::Nick, Operator::Matches(s("^[0-9]+$"))).satisfied_by(&e));
    assert!(Filter(Subject::Text, Operator::Matches(s("wor.d"))).satisfied_by(&e));
    assert!(Filter(Subject::Type, Operator::Matches(s("^mess"))).satisfied_by(&e));
    // The pattern is not the text: as a text "wor.d" does not occur.
    assert!(!Filter(Subject::Text, Operator::Contains(s("wor.d"))).satisfied_by(&e));
    let broken = Filter(Subject::Text, Operator::Matches(s("(")));
    assert!(!broken.is_valid());
    assert!(!broken.satisfied_by(&e));
    assert!(Filter(Subject::Text, Operator::Matches(s("a+"))).is_valid());
    assert!(Filter(Subject::Time, Operator::Equal(1)).is_valid());
}

#[test]
fn filter_on_time() {
    let e = msg_at(100, "a", "b");
    assert!(Filter(Subject::Time, Operator::Equal(100)).satisfied_by(&e));
    assert!(!Filter(Subject::Time, Operator::Equal(101)).satisfied_by(&e));
    assert!(Filter(Subject::Time, Operator::Greater(99)).satisfied_by(&e));
    assert!(!Filter(Subject::Time, Operator::Greater(100)).satisfied_by(&e));
    assert!(Filter(Subject::Time, Operator::Less(101)).satisfied_by(&e));
    assert!(!Filter(Subject::Time, Operator::Less(100)).satisfied_by(&e));
    let u = Event { ty: Type::Connect, time: Time::Unknown, channel: None };
    assert!(Filter(Subject::Time, Operator::Equal(0)).satisfied_by(&u));
    assert!(Filter(Subject::Time, Operator::Greater(5)).satisfied_at(&u, 6));
}

#[test]
fn filter_with_a_test_that_does_not_suit_is_never_satisfied() {
    let e = msg_at(100, "100", "100");
    assert!(!Filter(Subject::Nick, Operator::Equal(100)).satisfied_by(&e));
    assert!(!Filter(Subject::Text, Operator::Greater(0)).satisfied_by(&e));
    assert!(!Filter(Subject::Type, Operator::Less(1000)).satisfied_by(&e));
    assert!(!Filter(Subject::Time, Operator::Exactly(s("100"))).satisfied_by(&e));
    assert!(!Filter(Subject::Time, Operator::Contains(s("1"))).satisfied_by(&e));
    assert!(!Filter(Subject::Time, Operator::Matches(s(".*"))).satisfied_by(&e));
}

#[test]
fn convert_with_a_filter_and_its_negation() {
    let ctx = Context::default();
    let log = "[00:00:01] <alice> one\n[00:00:02] <bob> two\n[00:00:03] *** Joins: alice (a@b)\n";
    let only_alice = Some(Filter(Subject::Nick, Operator::Exactly(s("alice"))));
    assert_eq!(
        convert(&ctx, log, &Energymech, &Energymech, only_alice.clone(), false),
        Ok(s("[00:00:01] <alice> one\n[00:00:03] *** Joins: alice (a@b)\n"))
    );
    assert_eq!(
        convert(&ctx, log, &Energymech, &Energymech, only_alice, true),
        Ok(s("[00:00:02] <bob> two\n"))
    );
    let by_time = Some(Filter(Subject::Time, Operator::Greater(1453667545)));
    let wlog = "2016-01-24 20:32:25\tnick\thello you\n2016-01-24 20:32:26\tnick\tbye now\n";
    assert_eq!(
        convert(&ctx, wlog, &Weechat, &Weechat, by_time, false),
        Ok(s("2016-01-24 20:32:26\tnick\tbye now\n"))
    );
}

#[test]
fn convert_stops_at_the_first_error() {
    let ctx = Context::default();
    let log = "2016-01-24 20:32:25\tnick\thello you\nshort\n2016-01-24 20:32:26\tnick\tbye now\n";
    assert_eq!(
        convert(&ctx, log, &Weechat, &Weechat, None, false),
        Err(Error::Parse(s("short\n")))
    );
    // An unreadable time cannot be written; the line after it is never reached.
    let log = "2016-99-24 20:32:25\tnick\thello you\nshort\n";
    assert_eq!(convert(&ctx, log, &Weechat, &Weechat, None, false), Err(Error::MissingTimeData));
    // An event that the filter holds back is not written and cannot fail.
    let skip = Some(Filter(Subject::Nick, Operator::Exactly(s("nobody"))));
    let log = "2016-99-24 20:32:25\tnick\thello you\n";
    assert_eq!(convert(&ctx, log, &Weechat, &Weechat, skip, false), Ok(String::new()));
    assert_eq!(convert(&ctx, "", &Weechat, &Weechat, None, false), Ok(String::new()));
}

// ---- age set and dedup ----

#[test]
fn age_set_is_a_queue_with_a_memory() {
    let mut set = AgeSet::new();
    assert_eq!(set.len(), 0);
    assert!(!set.contains(&probe(msg_at(0, "a", "x"))));
    set.push(Aged { stamp: 1, event: msg_at(1, "a", "x") });
    set.push(Aged { stamp: 2, event: msg_at(2, "b", "y") });
    set.push(Aged { stamp: 3, event: msg_at(3, "c", "z") });
    assert_eq!(set.len(), 3);
    // The time is no part of what is looked for.
    assert!(set.contains(&probe(msg_at(99, "a", "x"))));
    assert!(set.contains(&probe(msg_at(0, "c", "z"))));
    assert!(!set.contains(&probe(msg_at(1, "a", "y"))));
    let mut other = msg_at(1, "a", "x");
    other.channel = Some(s("#c"));
    assert!(!set.contains(&probe(other)));
    set.prune(|a: &Aged| a.stamp < 2);
    assert_eq!(set.len(), 2);
    assert!(!set.contains(&probe(msg_at(1, "a", "x"))));
    assert!(set.contains(&probe(msg_at(2, "b", "y"))));
}

#[test]
fn prune_stops_at_the_first_entry_that_stays() {
    let mut set = AgeSet::new();
    set.push(Aged { stamp: 1, event: msg_at(1, "a", "x") });
    set.push(Aged { stamp: 5, event: msg_at(5, "b", "y") });
    set.push(Aged { stamp: 2, event: msg_at(2, "c", "z") });
    // The third entry would go too if this were a filter.
    set.prune(|a: &Aged| a.stamp < 3);
    assert_eq!(set.len(), 2);
    assert!(set.contains(&probe(msg_at(0, "c", "z"))));
    set.prune(|_: &Aged| false);
    assert_eq!(set.len(), 2);
    set.prune(|_: &Aged| true);
    assert_eq!(set.len(), 0);
    set.prune(|_: &Aged| true);
    assert_eq!(set.len(), 0);
}

#[test]
fn near_duplicates_are_dropped() {
    let e1 = msg_at(1000, "alice", "hi");
    let e2 = msg_at(1000 + DEFAULT_MAX_AGE, "alice", "hi");
    let kept = dedup_events(vec![e1.clone(), e2.clone()], &vec![1000, 1000 + DEFAULT_MAX_AGE], DEFAULT_MAX_AGE);
    assert_eq!(kept, vec![e1.clone()]);
    // One unit further apart and both stay.
    let e3 = msg_at(1001 + DEFAULT_MAX_AGE, "alice", "hi");
    let kept = dedup_events(vec![e1.clone(), e3.clone()], &vec![1000, 1001 + DEFAULT_MAX_AGE], DEFAULT_MAX_AGE);
    assert_eq!(kept, vec![e1.clone(), e3]);
    // Another text, another nick or another channel is another event.
    let mut e4 = e1.clone();
    e4.channel = Some(s("#c"));
    let all = vec![e1.clone(), msg_at(1000, "alice", "ho"), msg_at(1000, "bob", "hi"), e4];
    let kept = dedup_events(all.clone(), &vec![1000; 4], 10);
    assert_eq!(kept, all);
}

#[test]
fn dedup_window_moves_with_time() {
    let mut d = Dedup::new(10);
    assert!(d.offer(&msg_at(0, "a", "x"), 0));
    assert!(!d.offer(&msg_at(5, "a", "x"), 5));
    assert!(d.offer(&msg_at(6, "b", "y"), 6));
    assert!(!d.offer(&msg_at(10, "a", "x"), 10));
    // At 11 the first entry is older than 10 and leaves.
    assert!(d.offer(&msg_at(11, "a", "x"), 11));
    assert!(!d.offer(&msg_at(12, "b", "y"), 12));
    // A dropped event does not renew the entry of its like.
    assert!(d.offer(&msg_at(17, "b", "y"), 17));
}

#[test]
fn dedup_difference_of_stamps_does_not_wrap() {
    let mut d = Dedup::new(i64::MAX);
    assert!(d.offer(&msg_at(i64::MIN, "a", "x"), i64::MIN));
    // The entry is older than any age that fits: it leaves.
    assert!(d.offer(&msg_at(i64::MAX, "a", "x"), i64::MAX));
    let mut d = Dedup::new(-1);
    assert!(d.offer(&msg_at(5, "a", "x"), 5));
    assert!(d.offer(&msg_at(5, "a", "x"), 5));
}

#[test]
fn dedup_of_a_log() {
    let ctx = Context::default();
    let log = "2016-01-24 20:32:25\tnick\thello you\n\
2016-01-24 20:32:26\tnick\thello you\n\
short\n\
2016-01-24 20:32:27\tother\thello you\n\
2016-01-24 22:32:26\tnick\thello you\n";
    assert_eq!(
        dedup(&ctx, log, &Weechat, &Weechat, DEFAULT_MAX_AGE),
        Ok(s("2016-01-24 20:32:25\tnick\thello you\n\
2016-01-24 20:32:27\tother\thello you\n\
2016-01-24 22:32:26\tnick\thello you\n"))
    );
    assert_eq!(
        dedup(&ctx, "2016-99-24 20:32:25\tnick\thello you\n", &Weechat, &Weechat, 1),
        Err(Error::MissingTimeData)
    );
}

// ---- merge ----

#[test]
fn earliest_head_and_ties() {
    let t = |x: i64| Some(Time::Timestamp(x));
    assert_eq!(choose_earliest(&vec![]), None);
    assert_eq!(choose_earliest(&vec![None, None]), None);
    assert_eq!(choose_earliest(&vec![t(5), t(3), t(4)]), Some(1));
    assert_eq!(choose_earliest(&vec![t(3), t(3), t(3)]), Some(0));
    assert_eq!(choose_earliest(&vec![None, t(7), None, t(7)]), Some(1));
    assert_eq!(choose_earliest(&vec![t(7), None, t(6)]), Some(2));
    // An unknown time is earlier than nothing and nothing is earlier than it.
    assert_eq!(choose_earliest(&vec![Some(Time::Unknown), t(0)]), Some(0));
    assert_eq!(choose_earliest(&vec![t(0), Some(Time::Unknown)]), Some(0));
}

#[test]
fn merged_log_is_sorted_and_complete() {
    let a = vec![msg_at(1, "a", "1"), msg_at(4, "a", "4"), msg_at(4, "a", "4b"), msg_at(9, "a", "9")];
    let b = vec![msg_at(2, "b", "2"), msg_at(4, "b", "4"), msg_at(5, "b", "5")];
    let c: Vec<Event> = vec![];
    let d = vec![msg_at(0, "d", "0")];
    let out = merge_events(&vec![a.clone(), b.clone(), c, d.clone()]);
    let stamps = stamps_of(&out);
    assert_eq!(stamps, vec![0, 1, 2, 4, 4, 4, 5, 9]);
    // Of equal times the source with the lower index goes first, and keeps its own order.
    assert_eq!(out[3], a[1]);
    assert_eq!(out[4], a[2]);
    assert_eq!(out[5], b[1]);
    let mut all: Vec<Event> = a.into_iter().chain(b).chain(d).collect();
    let mut got = out.clone();
    let key = |e: &Event| format!("{:?}", e);
    all.sort_by_key(key);
    got.sort_by_key(key);
    assert_eq!(all, got);
    assert_eq!(merge_events(&vec![]), vec![]);
    assert_eq!(merge_events(&vec![vec![], vec![]]), vec![]);
}

#[test]
fn merge_of_logs() {
    let ctx = Context::default();
    let one = "2016-01-24 20:32:25\ta\tone\nshort\n2016-01-24 20:32:28\ta\tfour\n";
    let two = "2016-01-24 20:32:26\tb\ttwo\n2016-01-24 20:32:27\tb\tthree\n";
    assert_eq!(
        merge(&ctx, &[one, two], &Weechat, &Weechat),
        Ok(s("2016-01-24 20:32:25\ta\tone\n\
2016-01-24 20:32:26\tb\ttwo\n\
2016-01-24 20:32:27\tb\tthree\n\
2016-01-24 20:32:28\ta\tfour\n"))
    );
    assert_eq!(merge(&ctx, &[], &Weechat, &Weechat), Ok(String::new()));
    assert_eq!(merge(&ctx, &[two], &Weechat, &Weechat), Ok(s(two)));
}

// ---- sort ----

#[test]
fn sorting_is_stable_and_by_instant() {
    let events = vec![
        msg_at(5, "a", "first five"),
        msg_at(1, "b", "one"),
        msg_at(5, "c", "second five"),
        msg_at(-3, "d", "before the epoch"),
    ];
    let out = sort_events(&events, &stamps_of(&events));
    assert_eq!(out, vec![events[3].clone(), events[1].clone(), events[0].clone(), events[2].clone()]);
    assert_eq!(sort_events(&vec![], &vec![]), vec![]);
}

#[test]
fn sorting_a_sorted_log_changes_nothing() {
    let events = vec![msg_at(1, "a", "x"), msg_at(1, "b", "y"), msg_at(2, "a", "x"), msg_at(7, "c", "z")];
    let once = sort_events(&events, &stamps_of(&events));
    assert_eq!(once, events);
    let unsorted = vec![msg_at(3, "a", "x"), msg_at(1, "b", "y"), msg_at(2, "a", "x")];
    let once = sort_events(&unsorted, &stamps_of(&unsorted));
    let twice = sort_events(&once, &stamps_of(&once));
    assert_eq!(once, twice);
}

#[test]
fn sorting_uses_the_stamps_not_the_kinds_of_time() {
    let unknown = Event { ty: Type::Connect, time: Time::Unknown, channel: None };
    let events = vec![msg_at(5, "a", "x"), unknown.clone(), msg_at(-5, "b", "y")];
    let out = sort_events(&events, &vec![5, 0, -5]);
    assert_eq!(out, vec![events[2].clone(), unknown, events[0].clone()]);
}

#[test]
fn sort_ranks_sorts_pairs() {
    assert_eq!(sort_ranks(vec![(3, 0), (1, 1), (3, 2), (1, 0), (-9, 5)]), vec![(-9, 5), (1, 0), (1, 1), (3, 0), (3, 2)]);
}

#[test]
fn sort_of_a_log() {
    let ctx = Context::default();
    let log = "2016-01-24 20:32:28\ta\tfour\nshort\n2016-01-24 20:32:25\ta\tone\n2016-01-24 20:32:26\tb\ttwo\n";
    assert_eq!(
        sort(&ctx, log, &Weechat, &Weechat),
        Ok(s("2016-01-24 20:32:25\ta\tone\n2016-01-24 20:32:26\tb\ttwo\n2016-01-24 20:32:28\ta\tfour\n"))
    );
}

// ---- seen ----

#[test]
fn last_seen_is_the_latest_and_of_equals_the_first() {
    let events = vec![
        msg_at(1, "alice", "x"),
        msg_at(9, "bob", "about alice"),
        msg_at(9, "alice", "later"),
        msg_at(3, "alice", "out of order"),
        join_at(10, "carol"),
    ];
    let stamps = stamps_of(&events);
    assert_eq!(find_last_seen(&events, &stamps, "alice"), Some(1));
    assert_eq!(find_last_seen(&events, &stamps, "carol"), Some(4));
    assert_eq!(find_last_seen(&events, &stamps, "dave"), None);
    assert_eq!(find_last_seen(&vec![], &vec![], "alice"), None);
}

#[test]
fn seen_of_a_log() {
    let ctx = Context::default();
    let log = "2016-01-24 20:32:25\talice\tone\n2016-01-24 20:32:28\tbob\tfour\n2016-01-24 20:32:26\talice\ttwo\n";
    assert_eq!(seen("alice", &ctx, log, &Weechat, &Weechat), Ok(s("2016-01-24 20:32:26\talice\ttwo\n")));
    assert_eq!(seen("bob", &ctx, log, &Weechat, &Energymech), Ok(s("[20:32:28] <bob> four\n")));
    assert_eq!(seen("carol", &ctx, log, &Weechat, &Weechat), Ok(String::new()));
    assert_eq!(seen("alice", &ctx, "short\n", &Weechat, &Weechat), Err(Error::Parse(s("short\n"))));
}

// ---- stats ----

#[test]
fn words_and_letters() {
    assert_eq!(words_alpha("a b c"), (3, true));
    assert_eq!(words_alpha("d"), (1, true));
    assert_eq!(words_alpha(""), (0, false));
    assert_eq!(words_alpha("  \t \n"), (0, false));
    assert_eq!(words_alpha("  two   words  "), (2, true));
    assert_eq!(words_alpha("42 :-) ..."), (3, false));
    assert_eq!(words_alpha("1 2 x3"), (3, true));
    assert_eq!(words_alpha("\u{e9}t\u{e9}\u{2003}\u{4e2d}\u{6587}"), (2, true));
    for c in 0u8..128 {
        let c = c as char;
        let letter = ('a' <= c && c <= 'z') || ('A' <= c && c <= 'Z');
        assert_eq!(words_alpha(&c.to_string()).1, letter);
    }
    assert_eq!(words("one two  three"), 3);
    assert_eq!(add_capped(1, 2), 3);
    assert_eq!(add_capped(u32::MAX, 1), u32::MAX);
    assert_eq!(add_capped(u32::MAX - 1, 1), u32::MAX);
    assert_eq!(add_capped(7, u32::MAX - 3), u32::MAX);
}

#[test]
fn nick_normalization() {
    assert_eq!(strip_nick_prefix("@alice"), "alice");
    assert_eq!(strip_nick_prefix("~alice"), "alice");
    assert_eq!(strip_nick_prefix("&alice"), "alice");
    assert_eq!(strip_nick_prefix("%alice"), "alice");
    assert_eq!(strip_nick_prefix("+alice"), "alice");
    assert_eq!(strip_nick_prefix("@+alice"), "+alice");
    assert_eq!(strip_nick_prefix("alice_"), "alice_");
    assert_eq!(strip_nick_prefix("alice"), "alice");
    assert_eq!(strip_nick_prefix(""), "");
    assert_eq!(strip_nick_prefix("@"), "");
    assert_eq!(strip_nick("@alice__"), "alice");
    assert_eq!(strip_nick("alice_"), "alice");
    assert_eq!(strip_nick("al_ice"), "al_ice");
    assert_eq!(strip_nick("_alice"), "_alice");
    assert_eq!(strip_nick("+_"), "");
    assert_eq!(strip_nick("___"), "");
    assert_eq!(strip_nick(""), "");
    assert_eq!(strip_nick("\u{e9}_"), "\u{e9}");
}

#[test]
fn aggregator_counts_lines_and_words() {
    let events = vec![
        Event { ty: Type::Msg { from: s("alice"), content: s("a b c") }, time: Time::Unknown, channel: None },
        Event { ty: Type::Msg { from: s("alice"), content: s("d") }, time: Time::Unknown, channel: None },
    ];
    let st = tally(&events);
    assert_eq!(st.get("alice"), Some(NickStat { lines: 2, alpha_lines: 2, words: 4 }));
    assert_eq!(st.get("bob"), None);
    assert_eq!(st.len(), 1);
    assert_eq!(st.week(), [[0u32; 24]; 7]);
}

#[test]
fn aggregator_books_by_normalized_nick_and_only_messages() {
    let events = vec![
        msg_at(0, "@alice", "hello there"),
        msg_at(0, "alice_", "42"),
        msg_at(0, "bob", ""),
        join_at(0, "carol"),
        Event { ty: Type::Action { from: s("alice"), content: s("waves") }, time: Time::Timestamp(0), channel: None },
    ];
    let st = tally(&events);
    assert_eq!(st.get("alice"), Some(NickStat { lines: 2, alpha_lines: 1, words: 3 }));
    assert_eq!(st.get("bob"), Some(NickStat { lines: 1, alpha_lines: 0, words: 0 }));
    assert_eq!(st.get("carol"), None);
    assert_eq!(st.get("@alice"), None);
    assert_eq!(st.len(), 2);
    assert_eq!(st.entry(0), ("alice", NickStat { lines: 2, alpha_lines: 1, words: 3 }));
    assert_eq!(st.entry(1).0, "bob");
}

#[test]
fn aggregator_books_absolute_times_to_weekday_and_hour() {
    let mut st = Stats::new();
    // 2016-02-26 was a Friday, 2016-01-24 a Sunday, the epoch a Thursday.
    st.record(&msg_at(1456523629, "a", "x"));
    st.record(&msg_at(1456523629 + 60, "b", "x"));
    st.record(&msg_at(1453667545, "a", "x"));
    st.record(&msg_at(0, "a", "x"));
    st.record(&msg_at(-1, "a", "x"));
    st.record(&Event { ty: Type::Msg { from: s("a"), content: s("x") }, time: Time::Hms(21, 0, 0), channel: None });
    st.record(&Event { ty: Type::Msg { from: s("a"), content: s("x") }, time: Time::Unknown, channel: None });
    st.record(&join_at(1456523629, "a"));
    st.record(&msg_at(i64::MAX, "a", "x"));
    let mut want = [[0u32; 24]; 7];
    want[4][21] = 2;
    want[6][20] = 1;
    want[3][0] = 1;
    want[2][23] = 1;
    assert_eq!(st.week(), want);
    assert_eq!(st.get("a").unwrap().lines, 7);
}

#[test]
fn stats_of_a_log() {
    let ctx = Context::default();
    let log = "2016-01-24 20:32:25\talice\tone two\n2016-01-24 20:32:28\tbob\tfour\n2016-01-24 21:32:26\talice_\t3\n";
    let st = stats(&ctx, log, &Weechat).unwrap();
    assert_eq!(st.get("alice"), Some(NickStat { lines: 2, alpha_lines: 1, words: 3 }));
    assert_eq!(st.get("bob"), Some(NickStat { lines: 1, alpha_lines: 1, words: 1 }));
    assert_eq!(st.week()[6][20], 2);
    assert_eq!(st.week()[6][21], 1);
    assert!(matches!(stats(&ctx, "short\n", &Weechat), Err(Error::Parse(_))));
}

#[test]
fn ranking_by_words() {
    let ctx = Context::default();
    let log = "[00:00:01] <a> one\n[00:00:02] <b> one two three\n[00:00:03] <c> one\n[00:00:04] <d> one two\n";
    let top = freq(3, &ctx, log, &Energymech).unwrap();
    let names: Vec<&str> = top.iter().map(|e| e.0.as_str()).collect();
    assert_eq!(names, vec!["b", "d", "a"]);
    assert_eq!(top[0].1, NickStat { lines: 1, alpha_lines: 1, words: 3 });
    assert_eq!(freq(0, &ctx, log, &Energymech).unwrap().len(), 0);
    assert_eq!(freq(10, &ctx, log, &Energymech).unwrap().len(), 4);
    let st = stats(&ctx, log, &Energymech).unwrap();
    assert_eq!(st.top(2), vec![1, 3]);
}

// ---- chain ----

#[test]
fn chain_moves_on_when_the_front_is_at_its_end() {
    let mut c = Chain::new(vec!["a", "b"]);
    assert_eq!(c.current(), Some(&"a"));
    assert!(!c.is_spent());
    assert_eq!(c.after_transfer(3), Next::Done(3));
    assert_eq!(c.current(), Some(&"a"));
    assert_eq!(c.after_transfer(0), Next::Retry);
    assert_eq!(c.current(), Some(&"b"));
    assert_eq!(c.after_transfer(0), Next::Retry);
    assert_eq!(c.current(), None);
    assert!(c.is_spent());
    assert_eq!(c.into_parts(), (vec!["a", "b"], 2));
    let empty: Chain<u8> = Chain::new(vec![]);
    assert!(empty.is_spent());
}
