use ilc::context::{Context, Date};
use ilc::convert::convert;
use ilc::error::{Error, Field};
use ilc::event::{Event, Time, Type};
use ilc::format::energymech::Energymech;
use ilc::format::weechat::Weechat;
use ilc::format::{rejoin, strip_one, tokenize, Decode, Dummy, Encode};

fn s(x: &str) -> String {
    x.to_string()
}

fn em(line: &str) -> Option<Result<Event, Error>> {
    Energymech.decode(&Context::default(), line)
}

fn wc(line: &str) -> Option<Result<Event, Error>> {
    Weechat.decode(&Context::default(), line)
}

fn at(h: u8, m: u8, sec: u8, ty: Type) -> Option<Result<Event, Error>> {
    Some(Ok(Event { ty, time: Time::Hms(h, m, sec), channel: None }))
}

const LOG: &str = "[00:00:12] <Foo> hi there\n\
[00:01:00] * Foo waves  at everybody\n\
[00:02:30] -playbot- true\n\
[00:03:00] *** Foo is now known as Bar\n\
[00:04:00] *** ChanServ sets mode: +v Bar\n\
[00:05:00] *** Joins: Baz (baz@some.host)\n\
[00:06:00] *** Parts: Baz (baz@some.host) (A reason? Nah...)\n\
[00:07:00] *** Quits: Bar (bar@other.host) (Ping timeout: 42 seconds)\n\
[00:08:00] *** Qux changes topic to 'Hi there, why are you reading this?'\n\
[23:21:17] *** Paster was kicked by fripp.mozilla.org (Channel flood triggered (limit is 5 lines in 3 secs))\n\
[23:59:59] <Qux> \tlast\twords \n";

#[test]
fn identity() {
    let original = LOG.as_bytes().to_vec();
    let text = String::from_utf8_lossy(&original).into_owned();
    let output = convert(&Context::default(), &text, &Energymech, &Energymech, None, false)
        .expect("Conversion failed")
        .into_bytes();
    assert!(&original == &output);
}

#[test]
fn decodes_a_message() {
    let got = em("[21:53:49] <Foo> hi there\n");
    assert_eq!(got, at(21, 53, 49, Type::Msg { from: s("Foo"), content: s("hi there") }));
}

#[test]
fn decodes_a_change_of_nick() {
    let got = em("[21:24:57] *** Foo is now known as Bar\n");
    assert_eq!(got, at(21, 24, 57, Type::Nick { old_nick: s("Foo"), new_nick: s("Bar") }));
}

#[test]
fn energymech_decodes_every_kind() {
    assert_eq!(
        em("[21:53:49] * Foo emotes a lot\n"),
        at(21, 53, 49, Type::Action { from: s("Foo"), content: s("emotes a lot") })
    );
    assert_eq!(
        em("[23:21:17] *** Paster was kicked by fripp.mozilla.org (Channel flood (limit is 5))\n"),
        at(
            23,
            21,
            17,
            Type::Kick {
                kicked_nick: s("Paster"),
                kicking_nick: Some(s("fripp.mozilla.org")),
                kick_message: Some(s("Channel flood (limit is 5)")),
            }
        )
    );
    assert_eq!(
        em("[21:49:59] *** ChanServ sets mode: +v Foo\n"),
        at(21, 49, 59, Type::Mode { nick: Some(s("ChanServ")), mode: s("+v"), masks: s("Foo") })
    );
    assert_eq!(
        em("[21:49:59] *** Joins: Foo (host@some.mask)\n"),
        at(21, 49, 59, Type::Join { nick: s("Foo"), mask: Some(s("host@some.mask")) })
    );
    assert_eq!(
        em("[03:52:11] *** Parts: Foo (some@host.mask) (A reason? Nah...)\n"),
        at(
            3,
            52,
            11,
            Type::Part {
                nick: s("Foo"),
                mask: Some(s("some@host.mask")),
                reason: Some(s("A reason? Nah...")),
            }
        )
    );
    assert_eq!(
        em("[03:48:33] *** Quits: Foo (just@a.hostmask) (Ping timeout: 42 seconds)\n"),
        at(
            3,
            48,
            33,
            Type::Quit {
                nick: s("Foo"),
                mask: Some(s("just@a.hostmask")),
                reason: Some(s("Ping timeout: 42 seconds")),
            }
        )
    );
    assert_eq!(
        em("[09:44:56] *** Foo changes topic to 'Hi there'\n"),
        at(9, 44, 56, Type::TopicChange { nick: Some(s("Foo")), new_topic: s("Hi there") })
    );
    assert_eq!(
        em("[10:25:22] -playbot- true\n"),
        at(10, 25, 22, Type::Notice { from: s("playbot"), content: s("true") })
    );
}

#[test]
fn energymech_line_that_fits_no_rule_is_an_error() {
    let bad = |line: &str| assert_eq!(em(line), Some(Err(Error::Parse(s(line)))));
    bad("garbage\n");
    bad("garbage");
    bad("");
    bad("\n");
    bad("[21:53:49]\n");
    bad("[21:53:49] Foo says nothing\n");
    bad("[21:53:49] *** something else happened here today\n");
    bad("[21:53:49] *** Joins:\n");
    bad("[21:53:49] <Foo\n");
}

#[test]
fn energymech_line_without_line_feed_is_read_whole() {
    assert_eq!(
        em("[21:53:49] <Foo> hi there"),
        at(21, 53, 49, Type::Msg { from: s("Foo"), content: s("hi there") })
    );
    assert_eq!(em("[21:53:49] <Foo> hi there"), em("[21:53:49] <Foo> hi there\n"));
    assert_eq!(
        em("[21:24:57] *** Foo is now known as Bar"),
        at(21, 24, 57, Type::Nick { old_nick: s("Foo"), new_nick: s("Bar") })
    );
    assert_eq!(
        em("[21:53:49] <Foo>"),
        at(21, 53, 49, Type::Msg { from: s("Foo"), content: s("") })
    );
    // Only a line feed closes a line: other white space at the end belongs to the text.
    assert_eq!(
        em("[21:53:49] <Foo> hi there "),
        at(21, 53, 49, Type::Msg { from: s("Foo"), content: s("hi there ") })
    );
}

#[test]
fn kick_line_comes_back() {
    let line = "[23:21:17] *** Paster was kicked by fripp.mozilla.org (Channel flood triggered (limit is 5 lines in 3 secs))\n";
    let out = convert(&Context::default(), line, &Energymech, &Energymech, None, false);
    assert_eq!(out, Ok(s(line)));
}

#[test]
fn energymech_keeps_the_white_space_of_the_text() {
    assert_eq!(
        em("[21:53:49] <Foo> a \t b  \n"),
        at(21, 53, 49, Type::Msg { from: s("Foo"), content: s("a \t b  ") })
    );
}

#[test]
fn energymech_time_that_cannot_be_read_is_unknown() {
    let bad = |line: &str| match em(line) {
        Some(Ok(e)) => e.time,
        _ => panic!("no event"),
    };
    assert_eq!(bad("[2x:53:49] <Foo> hi\n"), Time::Unknown);
    assert_eq!(bad("21:53:49 <Foo> hi\n"), Time::Unknown);
    assert_eq!(bad("[+1:53:49] <Foo> hi\n"), Time::Unknown);
    assert_eq!(bad("now <Foo> hi\n"), Time::Unknown);
    assert_eq!(bad(" <Foo> hi\n"), Time::Unknown);
    // Only the places of the digits count.
    assert_eq!(bad("x21y53z49w <Foo> hi\n"), Time::Hms(21, 53, 49));
    assert_eq!(bad("[99:99:99] <Foo> hi\n"), Time::Hms(99, 99, 99));
}

#[test]
fn energymech_with_a_date_gives_absolute_times() {
    let mut ctx = Context::default();
    ctx.override_date = Some(Date { year: 2016, month: 2, day: 26 });
    let e = Energymech.decode(&ctx, "[21:53:49] <Foo> hi there\n").unwrap().unwrap();
    assert_eq!(e.time, Time::Timestamp(1456523629));
    ctx.timezone_in = 3600;
    let e = Energymech.decode(&ctx, "[21:53:49] <Foo> hi there\n").unwrap().unwrap();
    assert_eq!(e.time, Time::Timestamp(1456520029));
    // No such time of day, no such date.
    let e = Energymech.decode(&ctx, "[25:53:49] <Foo> hi there\n").unwrap().unwrap();
    assert_eq!(e.time, Time::Unknown);
    ctx.override_date = Some(Date { year: 2015, month: 2, day: 29 });
    let e = Energymech.decode(&ctx, "[21:53:49] <Foo> hi there\n").unwrap().unwrap();
    assert_eq!(e.time, Time::Unknown);
}

#[test]
fn channel_comes_from_the_context() {
    let mut ctx = Context::default();
    ctx.channel = Some(s("#rust"));
    let e = Energymech.decode(&ctx, "[21:53:49] <Foo> hi there\n").unwrap().unwrap();
    assert_eq!(e.channel, Some(s("#rust")));
    let e = Weechat.decode(&ctx, "2016-01-24 20:32:25\tnick\thello you\n").unwrap().unwrap();
    assert_eq!(e.channel, Some(s("#rust")));
    let e = Weechat
        .decode(&ctx, "2016-02-25 01:15:05\t-->\tFoo (host@mask.foo) has joined #example\n")
        .unwrap()
        .unwrap();
    assert_eq!(e.channel, Some(s("#example")));
}

#[test]
fn energymech_encodes_every_kind() {
    let ctx = Context::default();
    let enc = |ty: Type| Energymech.encode(&ctx, &Event { ty, time: Time::Hms(1, 2, 3), channel: None });
    assert_eq!(enc(Type::Msg { from: s("F"), content: s("x y") }), Ok(s("[01:02:03] <F> x y\n")));
    assert_eq!(enc(Type::Notice { from: s("F"), content: s("x") }), Ok(s("[01:02:03] -F- x\n")));
    assert_eq!(enc(Type::Action { from: s("F"), content: s("x") }), Ok(s("[01:02:03] * F x\n")));
    assert_eq!(
        enc(Type::Nick { old_nick: s("F"), new_nick: s("G") }),
        Ok(s("[01:02:03] *** F is now known as G\n"))
    );
    assert_eq!(
        enc(Type::Mode { nick: Some(s("C")), mode: s("+v"), masks: s("F") }),
        Ok(s("[01:02:03] *** C sets mode: +v F\n"))
    );
    assert_eq!(
        enc(Type::Join { nick: s("F"), mask: Some(s("a@b")) }),
        Ok(s("[01:02:03] *** Joins: F (a@b)\n"))
    );
    assert_eq!(
        enc(Type::Part { nick: s("F"), mask: Some(s("a@b")), reason: Some(s("r")) }),
        Ok(s("[01:02:03] *** Parts: F (a@b) (r)\n"))
    );
    assert_eq!(
        enc(Type::Part { nick: s("F"), mask: Some(s("a@b")), reason: None }),
        Ok(s("[01:02:03] *** Parts: F (a@b) ()\n"))
    );
    assert_eq!(
        enc(Type::Quit { nick: s("F"), mask: Some(s("a@b")), reason: Some(s("r")) }),
        Ok(s("[01:02:03] *** Quits: F (a@b) (r)\n"))
    );
    assert_eq!(
        enc(Type::TopicChange { nick: Some(s("F")), new_topic: s("t") }),
        Ok(s("[01:02:03] *** F changes topic to 't'\n"))
    );
    assert_eq!(
        enc(Type::Kick {
            kicked_nick: s("F"),
            kicking_nick: Some(s("op")),
            kick_message: Some(s("bye now")),
        }),
        Ok(s("[01:02:03] *** F was kicked by op (bye now)\n"))
    );
}

#[test]
fn energymech_writes_nothing_for_kinds_without_a_line() {
    let ctx = Context::default();
    let enc = |ty: Type| Energymech.encode(&ctx, &Event { ty, time: Time::Unknown, channel: None });
    assert_eq!(enc(Type::Connect), Ok(String::new()));
    assert_eq!(enc(Type::Disconnect), Ok(String::new()));
    assert_eq!(enc(Type::Topic { topic: s("t") }), Ok(String::new()));
}

#[test]
fn energymech_reports_what_is_missing() {
    let ctx = Context::default();
    let enc = |ty: Type, time: Time| Energymech.encode(&ctx, &Event { ty, time, channel: None });
    let t = Time::Hms(1, 2, 3);
    assert_eq!(
        enc(Type::Msg { from: s("F"), content: s("x") }, Time::Unknown),
        Err(Error::MissingTimeData)
    );
    assert_eq!(
        enc(Type::Mode { nick: None, mode: s("+v"), masks: s("F") }, t),
        Err(Error::MissingField(Field::Nick))
    );
    assert_eq!(
        enc(Type::Join { nick: s("F"), mask: None }, t),
        Err(Error::MissingField(Field::Mask))
    );
    assert_eq!(
        enc(Type::Part { nick: s("F"), mask: None, reason: None }, t),
        Err(Error::MissingField(Field::Mask))
    );
    assert_eq!(
        enc(Type::Quit { nick: s("F"), mask: None, reason: None }, t),
        Err(Error::MissingField(Field::Mask))
    );
    assert_eq!(
        enc(Type::Quit { nick: s("F"), mask: Some(s("m")), reason: None }, t),
        Err(Error::MissingField(Field::Reason))
    );
    assert_eq!(
        enc(Type::TopicChange { nick: None, new_topic: s("t") }, t),
        Err(Error::MissingField(Field::Nick))
    );
    assert_eq!(
        enc(Type::Kick { kicked_nick: s("F"), kicking_nick: None, kick_message: None }, t),
        Err(Error::MissingField(Field::Kicker))
    );
    assert_eq!(
        enc(Type::Kick { kicked_nick: s("F"), kicking_nick: None, kick_message: Some(s("m")) }, t),
        Err(Error::MissingField(Field::Kicker))
    );
    assert_eq!(
        enc(Type::Kick { kicked_nick: s("F"), kicking_nick: Some(s("k")), kick_message: None }, t),
        Err(Error::MissingField(Field::Message))
    );
    // The time is written first.
    assert_eq!(
        enc(Type::Kick { kicked_nick: s("F"), kicking_nick: None, kick_message: None }, Time::Unknown),
        Err(Error::MissingTimeData)
    );
    assert_eq!(
        enc(Type::Join { nick: s("F"), mask: None }, Time::Unknown),
        Err(Error::MissingTimeData)
    );
    assert_eq!(
        enc(Type::Join { nick: s("F"), mask: Some(s("m")) }, Time::Hms(24, 0, 0)),
        Err(Error::TimeFormat)
    );
}

#[test]
fn energymech_writes_absolute_times_in_the_output_zone() {
    let mut ctx = Context::default();
    ctx.timezone_out = 3600;
    let e = Event {
        ty: Type::Msg { from: s("F"), content: s("x") },
        time: Time::Timestamp(1456523629),
        channel: None,
    };
    assert_eq!(Energymech.encode(&ctx, &e), Ok(s("[22:53:49] <F> x\n")));
}

#[test]
fn writes_a_message_back() {
    let line = "[21:53:49] <Foo> hi there\n";
    let event = em(line).unwrap().unwrap();
    assert_eq!(Energymech.encode(&Context::default(), &event), Ok(s(line)));
}

#[test]
fn weechat_decodes_every_kind() {
    let t = |stamp: i64, ty: Type, channel: Option<&str>| {
        Some(Ok(Event { ty, time: Time::Timestamp(stamp), channel: channel.map(s) }))
    };
    assert_eq!(
        wc("2016-01-24 20:32:25\tnick\tjust some message\n"),
        t(1453667545, Type::Msg { from: s("nick"), content: s("just some message") }, None)
    );
    assert_eq!(
        wc("2016-01-24 20:32:25\tnick\thello\n"),
        t(1453667545, Type::Msg { from: s("nick"), content: s("hello") }, None)
    );
    assert_eq!(
        wc("2016-01-24 20:32:25\t *\tnick emotes much\n"),
        t(1453667545, Type::Action { from: s("nick"), content: s("emotes much") }, None)
    );
    assert_eq!(
        wc("2016-02-25 01:15:05\t-->\tFoo (host@mask.foo) has joined #example\n"),
        t(
            1456362905,
            Type::Join { nick: s("Foo"), mask: Some(s("host@mask.foo")) },
            Some("#example")
        )
    );
    assert_eq!(
        wc("2016-02-25 01:15:05\t<--\tFoo (host@mask.foo) has left #channel (Some reason)\n"),
        t(
            1456362905,
            Type::Part {
                nick: s("Foo"),
                mask: Some(s("host@mask.foo")),
                reason: Some(s("Some reason")),
            },
            Some("#channel")
        )
    );
    assert_eq!(
        wc("2016-02-25 01:15:05\t<--\tFoo (host@mask.foo) has left #channel\n"),
        t(
            1456362905,
            Type::Part { nick: s("Foo"), mask: Some(s("host@mask.foo")), reason: Some(s("")) },
            Some("#channel")
        )
    );
    assert_eq!(
        wc("2016-02-25 01:15:05\t<--\tFoo (host@mask.foo) has quit (Some reason)\n"),
        t(
            1456362905,
            Type::Quit {
                nick: s("Foo"),
                mask: Some(s("host@mask.foo")),
                reason: Some(s("Some reason")),
            },
            None
        )
    );
    assert_eq!(
        wc("2016-02-25 01:15:05\t--\tNotice(playbot-veno): some text\n"),
        t(
            1456362905,
            Type::Notice { from: s("playbot-veno"), content: s("some text") },
            None
        )
    );
    assert_eq!(
        wc("2016-02-25 01:15:05\t--\tirc: disconnected from server\n"),
        t(1456362905, Type::Disconnect, None)
    );
    assert_eq!(
        wc("2016-02-25 01:15:05\t--\tFoo|afk is now known as Foo\n"),
        t(1456362905, Type::Nick { old_nick: s("Foo|afk"), new_nick: s("Foo") }, None)
    );
    assert_eq!(
        wc("2016-02-25 01:15:05\t--\tYou are now known as foo\n"),
        t(1456362905, Type::Nick { old_nick: s("You"), new_nick: s("foo") }, None)
    );
}

#[test]
fn weechat_line_that_fits_no_rule_is_an_error() {
    let bad = |line: &str| assert_eq!(wc(line), Some(Err(Error::Parse(s(line)))));
    bad("2016-02-25 01:15:05\t--\tTopic for #x is \"y\"\n");
    bad("2016-02-25 01:15:05\t--\n");
    bad("2016-02-25 01:15:05\t<--\tFoo (a@b) has gone away\n");
    bad("2016-02-25 01:15:05\t<--\tFoo (a@b) has\n");
}

#[test]
fn weechat_reports_lines_that_are_too_short() {
    let short = |line: &str| assert_eq!(wc(line), Some(Err(Error::Parse(s(line)))));
    short("");
    short("\n");
    short("garbage\n");
    short("2016-01-24 20:32:25\n");
    short("2016-01-24 20:32:25");
    short("2016-02-25 01:15:05\t<--\tFoo (host@mask.foo) has left\n");
    short("2016-02-25 01:15:05\t--\tYou are now known\n");
    short("2016-01-24 20:32:25\t *\n");
}

#[test]
fn weechat_line_without_line_feed_is_read_whole() {
    assert_eq!(
        wc("2016-01-24 20:32:25\tnick\tjust some message"),
        wc("2016-01-24 20:32:25\tnick\tjust some message\n")
    );
    let e = wc("2016-01-24 20:32:25\tnick\tjust some message").unwrap().unwrap();
    assert_eq!(e.ty, Type::Msg { from: s("nick"), content: s("just some message") });
    let e = wc("2016-01-24 20:32:25\tnick").unwrap().unwrap();
    assert_eq!(e.ty, Type::Msg { from: s("nick"), content: s("") });
}

#[test]
fn weechat_time_that_cannot_be_read_is_unknown() {
    let e = wc("2016-13-24 20:32:25\tnick\thello\n").unwrap().unwrap();
    assert_eq!(e.time, Time::Unknown);
    let mut ctx = Context::default();
    ctx.timezone_in = -7200;
    let e = Weechat.decode(&ctx, "2016-01-24 20:32:25\tnick\thello\n").unwrap().unwrap();
    assert_eq!(e.time, Time::Timestamp(1453667545 + 7200));
}

#[test]
fn weechat_encodes_every_kind() {
    let ctx = Context::default();
    let enc = |ty: Type, channel: Option<&str>| {
        Weechat.encode(&ctx, &Event { ty, time: Time::Timestamp(1456362905), channel: channel.map(s) })
    };
    let t = "2016-02-25 01:15:05";
    assert_eq!(enc(Type::Msg { from: s("F"), content: s("x y") }, None), Ok(format!("{}\tF\tx y\n", t)));
    assert_eq!(
        enc(Type::Action { from: s("F"), content: s("x y") }, None),
        Ok(format!("{}\t *\tF x y\n", t))
    );
    assert_eq!(
        enc(Type::Join { nick: s("F"), mask: Some(s("a@b")) }, Some("#c")),
        Ok(format!("{}\t-->\tF (a@b) has joined #c\n", t))
    );
    assert_eq!(
        enc(Type::Part { nick: s("F"), mask: Some(s("a@b")), reason: Some(s("r s")) }, Some("#c")),
        Ok(format!("{}\t<--\tF (a@b) has left #c (r s)\n", t))
    );
    assert_eq!(
        enc(Type::Part { nick: s("F"), mask: Some(s("a@b")), reason: Some(s("")) }, Some("#c")),
        Ok(format!("{}\t<--\tF (a@b) has left #c\n", t))
    );
    assert_eq!(
        enc(Type::Part { nick: s("F"), mask: Some(s("a@b")), reason: None }, Some("#c")),
        Ok(format!("{}\t<--\tF (a@b) has left #c\n", t))
    );
    assert_eq!(
        enc(Type::Quit { nick: s("F"), mask: Some(s("a@b")), reason: Some(s("r")) }, None),
        Ok(format!("{}\t<--\tF (a@b) has quit (r)\n", t))
    );
    assert_eq!(
        enc(Type::Quit { nick: s("F"), mask: Some(s("a@b")), reason: None }, None),
        Ok(format!("{}\t<--\tF (a@b) has quit\n", t))
    );
    assert_eq!(enc(Type::Disconnect, None), Ok(format!("{}\t--\tirc: disconnected from server\n", t)));
    assert_eq!(
        enc(Type::Notice { from: s("F"), content: s("x") }, None),
        Ok(format!("{}\t--\tNotice(F): x\n", t))
    );
    assert_eq!(
        enc(Type::Nick { old_nick: s("a"), new_nick: s("b") }, None),
        Ok(format!("{}\t--\ta is now known as b\n", t))
    );
    assert_eq!(enc(Type::Connect, None), Ok(String::new()));
    assert_eq!(enc(Type::Topic { topic: s("a") }, None), Ok(String::new()));
    assert_eq!(
        enc(Type::Kick { kicked_nick: s("a"), kicking_nick: None, kick_message: None }, None),
        Ok(String::new())
    );
}

#[test]
fn weechat_reports_what_is_missing() {
    let ctx = Context::default();
    let enc = |ty: Type, time: Time, channel: Option<&str>| {
        Weechat.encode(&ctx, &Event { ty, time, channel: channel.map(s) })
    };
    let t = Time::Timestamp(0);
    assert_eq!(
        enc(Type::Join { nick: s("F"), mask: None }, t, Some("#c")),
        Err(Error::MissingField(Field::Mask))
    );
    assert_eq!(
        enc(Type::Join { nick: s("F"), mask: Some(s("m")) }, t, None),
        Err(Error::MissingField(Field::Channel))
    );
    assert_eq!(
        enc(Type::Part { nick: s("F"), mask: None, reason: None }, t, None),
        Err(Error::MissingField(Field::Mask))
    );
    assert_eq!(
        enc(Type::Part { nick: s("F"), mask: Some(s("m")), reason: None }, t, None),
        Err(Error::MissingField(Field::Channel))
    );
    assert_eq!(
        enc(Type::Quit { nick: s("F"), mask: None, reason: None }, t, None),
        Err(Error::MissingField(Field::Mask))
    );
    assert_eq!(enc(Type::Disconnect, Time::Unknown, None), Err(Error::MissingTimeData));
    assert_eq!(enc(Type::Connect, Time::Unknown, None), Ok(String::new()));
}

#[test]
fn weechat_round_trip() {
    let log = "2016-02-25 01:15:05\t-->\tFoo (host@mask.foo) has joined #example\n\
2016-02-25 01:16:00\tFoo\thello  there\n\
2016-02-25 01:17:00\t *\tFoo waves\n\
2016-02-25 01:18:00\t--\tNotice(bot): be nice\n\
2016-02-25 01:19:00\t--\tFoo is now known as Bar\n\
2016-02-25 01:36:13\t<--\tFoo (host@mask.foo) has left #example (Some reason)\n\
2016-02-25 01:38:55\t<--\tBar (host@mask.bar) has quit (Ping timeout)\n\
2016-02-25 01:40:00\t--\tirc: disconnected from server\n";
    let out = convert(&Context::default(), log, &Weechat, &Weechat, None, false);
    assert_eq!(out, Ok(s(log)));
}

#[test]
fn conversion_between_dialects_and_zones() {
    let mut ctx = Context::default();
    ctx.timezone_out = -3600;
    let log = "2016-02-25 01:16:00\tFoo\thello there\n2016-02-25 01:17:00\t *\tFoo waves\n";
    let out = convert(&ctx, log, &Weechat, &Energymech, None, false);
    assert_eq!(out, Ok(s("[00:16:00] <Foo> hello there\n[00:17:00] * Foo waves\n")));
}

#[test]
fn dummy_decodes_nothing() {
    assert_eq!(Dummy.decode(&Context::default(), "[21:53:49] <Foo> hi there\n"), None);
    assert_eq!(Dummy.decode(&Context::default(), ""), None);
}

#[test]
fn tokens_and_separators() {
    let (tokens, splits) = tokenize("a b\t\tc\n");
    assert_eq!(tokens, vec![s("a"), s("b"), s(""), s("c"), s("")]);
    assert_eq!(splits, vec![' ', '\t', '\t', '\n']);
    let (tokens, splits) = tokenize("");
    assert_eq!(tokens, vec![s("")]);
    assert_eq!(splits, Vec::<char>::new());
    let (tokens, splits) = tokenize("\u{a0}x\u{2003}\u{e9}");
    assert_eq!(tokens, vec![s(""), s("x"), s("\u{e9}")]);
    assert_eq!(splits, vec!['\u{a0}', '\u{2003}']);
}

#[test]
fn white_space_is_what_the_list_says() {
    let white = [
        '\u{9}', '\u{a}', '\u{b}', '\u{c}', '\u{d}', ' ', '\u{85}', '\u{a0}', '\u{1680}',
        '\u{2000}', '\u{2001}', '\u{2002}', '\u{2003}', '\u{2004}', '\u{2005}', '\u{2006}',
        '\u{2007}', '\u{2008}', '\u{2009}', '\u{200a}', '\u{2028}', '\u{2029}', '\u{202f}',
        '\u{205f}', '\u{3000}',
    ];
    for c in white {
        let (tokens, splits) = tokenize(&format!("a{}b", c));
        assert_eq!(tokens, vec![s("a"), s("b")]);
        assert_eq!(splits, vec![c]);
    }
    let other = [
        '\u{8}', '\u{e}', '\u{1f}', '!', '\u{84}', '\u{86}', '\u{9f}', '\u{a1}', '\u{167f}',
        '\u{1681}', '\u{180e}', '\u{1fff}', '\u{200b}', '\u{2027}', '\u{202a}', '\u{202e}',
        '\u{2030}', '\u{205e}', '\u{2060}', '\u{2fff}', '\u{3001}', '\u{feff}',
    ];
    for c in other {
        let (tokens, splits) = tokenize(&format!("a{}b", c));
        assert_eq!(tokens.len(), 1);
        assert_eq!(splits, Vec::<char>::new());
    }
}

#[test]
fn rejoin_puts_tokens_together() {
    assert_eq!(rejoin(&["a", "b", "c"], &[' ', '\t', '\n']), "a b\tc");
    assert_eq!(rejoin(&["a", "b", "c"], &[' ', '\t']), "a b");
    assert_eq!(rejoin(&["a"], &[' ', '\t']), "a");
    assert_eq!(rejoin(&["a", "b"], &[]), "");
    assert_eq!(rejoin(&[], &[' ']), "");
    assert_eq!(rejoin(&["", ""], &[' ', ' ']), " ");
    assert_eq!(rejoin(&["\u{e9}t\u{e9}", "x"], &['\u{2003}', '\n']), "\u{e9}t\u{e9}\u{2003}x");
}

#[test]
fn strip_one_takes_off_both_ends() {
    assert_eq!(strip_one("<Foo>"), "Foo");
    assert_eq!(strip_one("()"), "");
    assert_eq!(strip_one("x"), "");
    assert_eq!(strip_one(""), "");
    assert_eq!(strip_one("'a b'"), "a b");
    assert_eq!(strip_one("(\u{e9})"), "\u{e9}");
}
