//! Reading a line and writing the event back gives the line again, for
//! lines in the form in which the dialects write them.
//!
//! What is proved here rests on one thing that is not: that the calendar
//! writes a time in the way in which it stood in the line. It is asked of
//! the caller.

use crate::context::ContextView;
use crate::error::ErrorView;
use crate::event::{rendered, TypeView};
use crate::format::energymech;
use crate::format::weechat;
use crate::format::{closed, cuts, interleaved, pieces, rejoined, shorter};
use crate::text::{begins_with, char_is_whitespace, inner};
use vstd::prelude::*;

verus! {

/// What the first `n` tokens and separators give depends on no other.
pub proof fn lemma_interleaved_agrees(
    t1: Seq<Seq<char>>,
    s1: Seq<char>,
    t2: Seq<Seq<char>>,
    s2: Seq<char>,
    n: nat,
)
    requires
        n <= t1.len(),
        n <= s1.len(),
        n <= t2.len(),
        n <= s2.len(),
        forall|i: int| 0 <= i < n ==> t1[i] == t2[i] && s1[i] == s2[i],
    ensures
        interleaved(t1, s1, n) == interleaved(t2, s2, n),
    decreases n,
{
    if n > 0 {
        lemma_interleaved_agrees(t1, s1, t2, s2, (n - 1) as nat);
    }
}

/// A line has one token more than separators, no token holds white
/// space, and the tokens with the separators between them are the line.
pub proof fn law_tokens_give_the_line_back(line: Seq<char>)
    ensures
        pieces(line).len() == cuts(line).len() + 1,
        forall|i: int| 0 <= i < cuts(line).len() ==> char_is_whitespace(#[trigger] cuts(line)[i]),
        interleaved(pieces(line), cuts(line), cuts(line).len()) + pieces(line).last() == line,
    decreases line.len(),
{
    if line.len() == 0 {
        assert(interleaved(pieces(line), cuts(line), 0) + pieces(line).last() =~= line);
    } else {
        let prev = line.drop_last();
        let c = line.last();
        law_tokens_give_the_line_back(prev);
        let t = pieces(prev);
        let s = cuts(prev);
        let n = s.len();
        let whole = interleaved(t, s, n) + t.last();
        assert(whole == prev);
        assert(line =~= prev.push(c));
        if char_is_whitespace(c) {
            let t2 = t.push(Seq::empty());
            let s2 = s.push(c);
            lemma_interleaved_agrees(t, s, t2, s2, n);
            assert(interleaved(t2, s2, n + 1) == interleaved(t2, s2, n) + t2[n as int].push(
                s2[n as int],
            ));
            assert(t2[n as int] == t.last());
            assert(interleaved(t2, s2, n + 1) + t2.last() =~= whole.push(c));
        } else {
            let t2 = t.update(t.len() - 1, t.last().push(c));
            lemma_interleaved_agrees(t, s, t2, s, n);
            assert(interleaved(t2, s, n) + t2.last() =~= whole.push(c));
        }
    }
}

/// What the first `n` pairs give is what the first `k` give, followed
/// by what the next `n - k` give.
pub proof fn lemma_interleaved_splits(t: Seq<Seq<char>>, s: Seq<char>, k: nat, n: nat)
    requires
        k <= n,
        n <= t.len(),
        n <= s.len(),
    ensures
        interleaved(t, s, n) == interleaved(t, s, k) + interleaved(
            t.skip(k as int),
            s.skip(k as int),
            (n - k) as nat,
        ),
    decreases n - k,
{
    if k == n {
        assert(interleaved(t, s, n) =~= interleaved(t, s, k) + Seq::<char>::empty());
    } else {
        lemma_interleaved_splits(t, s, k, (n - 1) as nat);
        let a = interleaved(t, s, k);
        let b = interleaved(t.skip(k as int), s.skip(k as int), (n - 1 - k) as nat);
        let last = t[n - 1].push(s[n - 1]);
        assert(t.skip(k as int)[n - 1 - k] == t[n - 1]);
        assert(s.skip(k as int)[n - 1 - k] == s[n - 1]);
        assert((a + b) + last =~= a + (b + last));
    }
}

/// A line that ends with a white-space character is, for every `k` below
/// the number of its separators, its first `k` tokens with their
/// separators, then what `rejoined` makes of the rest, then its last
/// character.
pub proof fn law_line_is_head_and_rest(line: Seq<char>, k: nat)
    requires
        line.len() > 0,
        char_is_whitespace(line.last()),
        k < cuts(line).len(),
    ensures
        line == interleaved(pieces(line), cuts(line), k) + rejoined(
            pieces(line).skip(k as int),
            cuts(line).skip(k as int),
        ).push(line.last()),
{
    let t = pieces(line);
    let s = cuts(line);
    let n = s.len();
    law_tokens_give_the_line_back(line);
    assert(t.last() =~= Seq::<char>::empty() && s.last() == line.last()) by {
        let prev = line.drop_last();
        law_tokens_give_the_line_back(prev);
    }
    lemma_interleaved_splits(t, s, k, n);
    let rest_t = t.skip(k as int);
    let rest_s = s.skip(k as int);
    let all = interleaved(rest_t, rest_s, (n - k) as nat);
    assert(shorter(rest_t.len(), rest_s.len()) == n - k);
    assert(all == interleaved(rest_t, rest_s, (n - k - 1) as nat) + rest_t[n - k - 1].push(
        rest_s[n - k - 1],
    ));
    assert(rest_s[n - k - 1] == s.last());
    assert(all.len() > 0 && all.last() == line.last());
    assert(all =~= all.drop_last().push(line.last()));
    assert(line =~= interleaved(t, s, k) + all + t.last());
}

/// A message in the energymech dialect is written back as it was read: a
/// line of the form `[time] <name> text` with a line feed at its end,
/// single blanks after the first two tokens, and a time that the calendar
/// writes as it stands in the line.
#[verifier::rlimit(80)]
pub proof fn law_energymech_message_is_written_back(
    context: ContextView,
    line: Seq<char>,
    time: Seq<char>,
)
    requires
        line.len() > 0,
        line.last() == '\n',
        cuts(line).len() >= 3,
        cuts(line)[0] == ' ',
        cuts(line)[1] == ' ',
        pieces(line)[0] == "["@ + time + "]"@,
        energymech::fenced(pieces(line)[1], '<', '>'),
        rendered(
            energymech::line_time(context, pieces(line)[0]),
            context.timezone_out,
            energymech::time_pattern(),
        ) == Ok::<Seq<char>, ErrorView>(time),
    ensures
        energymech::decoded_line(context, line) is Some,
        energymech::decoded_line(context, line).unwrap().ty is Msg,
        energymech::encoded_event(context, energymech::decoded_line(context, line).unwrap()) == Ok::<
            Seq<char>,
            ErrorView,
        >(line),
{
    let t = pieces(line);
    let s = cuts(line);
    assert(closed(line) == line);
    law_tokens_give_the_line_back(line);
    law_line_is_head_and_rest(line, 2);
    reveal_strlit("*");
    reveal_strlit("***");
    reveal_strlit("[");
    reveal_strlit("] <");
    reveal_strlit("> ");
    reveal_strlit("\n");
    assert(t[1] != "*"@ && t[1] != "***"@) by {
        assert(t[1].first() == '<');
        assert("*"@[0] == '*');
        assert("***"@[0] == '*');
    }
    let content = rejoined(t.skip(2), s.skip(2));
    let from = inner(t[1]);
    assert(energymech::kind(t, s) == Some(TypeView::Msg { from, content }));
    assert(interleaved(t, s, 2) == interleaved(t, s, 1) + t[1].push(s[1]));
    assert(interleaved(t, s, 1) == interleaved(t, s, 0) + t[0].push(s[0]));
    assert(t[1].len() >= 2) by {
        if t[1].len() == 1 {
            assert(t[1].first() == t[1].last());
        }
    }
    assert(t[1] =~= seq!['<'] + from + seq!['>']);
    reveal_strlit("]");
    assert("["@ =~= seq!['[']);
    assert("]"@ =~= seq![']']);
    assert(t[0] =~= seq!['['] + time + seq![']']);
    assert("] <"@ =~= seq![']', ' ', '<']);
    assert("> "@ =~= seq!['>', ' ']);
    assert("\n"@ =~= seq!['\n']);
    let head = t[0].push(s[0]) + t[1].push(s[1]);
    assert(interleaved(t, s, 2) =~= head);
    assert("["@ + time + "] <"@ + from + "> "@ =~= head);
    let out = "["@ + time + "] <"@ + from + "> "@ + content + "\n"@;
    assert(out =~= head + content.push('\n'));
}

/// A notice in the energymech dialect is written back as it was read: a
/// line of the form `[time] -name- text`, under the same conditions as a
/// message.
#[verifier::rlimit(80)]
pub proof fn law_energymech_notice_is_written_back(
    context: ContextView,
    line: Seq<char>,
    time: Seq<char>,
)
    requires
        line.len() > 0,
        line.last() == '\n',
        cuts(line).len() >= 3,
        cuts(line)[0] == ' ',
        cuts(line)[1] == ' ',
        pieces(line)[0] == "["@ + time + "]"@,
        pieces(line)[1].len() >= 2,
        energymech::fenced(pieces(line)[1], '-', '-'),
        rendered(
            energymech::line_time(context, pieces(line)[0]),
            context.timezone_out,
            energymech::time_pattern(),
        ) == Ok::<Seq<char>, ErrorView>(time),
    ensures
        energymech::decoded_line(context, line) is Some,
        energymech::decoded_line(context, line).unwrap().ty is Notice,
        energymech::encoded_event(context, energymech::decoded_line(context, line).unwrap()) == Ok::<
            Seq<char>,
            ErrorView,
        >(line),
{
    let t = pieces(line);
    let s = cuts(line);
    assert(closed(line) == line);
    law_tokens_give_the_line_back(line);
    law_line_is_head_and_rest(line, 2);
    reveal_strlit("*");
    reveal_strlit("***");
    reveal_strlit("[");
    reveal_strlit("] -");
    reveal_strlit("- ");
    reveal_strlit("\n");
    assert(t[1] != "*"@ && t[1] != "***"@) by {
        assert(t[1].first() == '-');
        assert("*"@[0] == '*');
        assert("***"@[0] == '*');
    }
    let content = rejoined(t.skip(2), s.skip(2));
    let from = inner(t[1]);
    assert(energymech::kind(t, s) == Some(TypeView::Notice { from, content }));
    assert(interleaved(t, s, 2) == interleaved(t, s, 1) + t[1].push(s[1]));
    assert(interleaved(t, s, 1) == interleaved(t, s, 0) + t[0].push(s[0]));
    assert(t[1] =~= seq!['-'] + from + seq!['-']);
    reveal_strlit("]");
    assert("["@ =~= seq!['[']);
    assert("]"@ =~= seq![']']);
    assert(t[0] =~= seq!['['] + time + seq![']']);
    assert("] -"@ =~= seq![']', ' ', '-']);
    assert("- "@ =~= seq!['-', ' ']);
    assert("\n"@ =~= seq!['\n']);
    let head = t[0].push(s[0]) + t[1].push(s[1]);
    assert(interleaved(t, s, 2) =~= head);
    assert("["@ + time + "] -"@ + from + "- "@ =~= head);
    let out = "["@ + time + "] -"@ + from + "- "@ + content + "\n"@;
    assert(out =~= head + content.push('\n'));
}

/// An action in the energymech dialect is written back as it was read: a
/// line of the form `[time] * name text` with a line feed at its end,
/// single blanks after the first three tokens, and a time that the
/// calendar writes as it stands in the line.
#[verifier::rlimit(80)]
pub proof fn law_energymech_action_is_written_back(
    context: ContextView,
    line: Seq<char>,
    time: Seq<char>,
)
    requires
        line.len() > 0,
        line.last() == '\n',
        cuts(line).len() >= 4,
        cuts(line)[0] == ' ',
        cuts(line)[1] == ' ',
        cuts(line)[2] == ' ',
        pieces(line)[0] == "["@ + time + "]"@,
        pieces(line)[1] == "*"@,
        rendered(
            energymech::line_time(context, pieces(line)[0]),
            context.timezone_out,
            energymech::time_pattern(),
        ) == Ok::<Seq<char>, ErrorView>(time),
    ensures
        energymech::decoded_line(context, line) is Some,
        energymech::decoded_line(context, line).unwrap().ty is Action,
        energymech::encoded_event(context, energymech::decoded_line(context, line).unwrap()) == Ok::<
            Seq<char>,
            ErrorView,
        >(line),
{
    let t = pieces(line);
    let s = cuts(line);
    assert(closed(line) == line);
    law_tokens_give_the_line_back(line);
    law_line_is_head_and_rest(line, 3);
    reveal_strlit("*");
    reveal_strlit("[");
    reveal_strlit("] * ");
    reveal_strlit(" ");
    reveal_strlit("\n");
    let content = rejoined(t.skip(3), s.skip(3));
    assert(energymech::kind(t, s) == Some(TypeView::Action { from: t[2], content }));
    assert(interleaved(t, s, 3) == interleaved(t, s, 2) + t[2].push(s[2]));
    assert(interleaved(t, s, 2) == interleaved(t, s, 1) + t[1].push(s[1]));
    assert(interleaved(t, s, 1) == interleaved(t, s, 0) + t[0].push(s[0]));
    assert(t[1] =~= seq!['*']);
    reveal_strlit("]");
    assert("["@ =~= seq!['[']);
    assert("]"@ =~= seq![']']);
    assert(t[0] =~= seq!['['] + time + seq![']']);
    assert("] * "@ =~= seq![']', ' ', '*', ' ']);
    assert(" "@ =~= seq![' ']);
    assert("\n"@ =~= seq!['\n']);
    let head = t[0].push(s[0]) + t[1].push(s[1]) + t[2].push(s[2]);
    assert(interleaved(t, s, 3) =~= head);
    assert("["@ + time + "] * "@ + t[2] + " "@ =~= head);
    let out = "["@ + time + "] * "@ + t[2] + " "@ + content + "\n"@;
    assert(out =~= head + content.push('\n'));
}

/// A message in the WeeChat dialect is written back as it was read: a
/// line of the form `date time<tab>name<tab>text` with a line feed at its
/// end, a blank between date and time, and a time that the calendar
/// writes as it stands in the line. The name is none of the words by which
/// the dialect knows its other kinds of line.
#[verifier::rlimit(80)]
pub proof fn law_weechat_message_is_written_back(context: ContextView, line: Seq<char>)
    requires
        line.len() > 0,
        line.last() == '\n',
        cuts(line).len() >= 4,
        cuts(line)[0] == ' ',
        cuts(line)[1] == '\t',
        cuts(line)[2] == '\t',
        weechat::at(pieces(line), 5) != "has"@,
        pieces(line)[2] != "--"@,
        !(pieces(line)[3] == "*"@ && pieces(line)[2].len() == 0),
        rendered(
            weechat::line_time(context, pieces(line)[0], pieces(line)[1]),
            context.timezone_out,
            weechat::time_pattern(),
        ) == Ok::<Seq<char>, ErrorView>(pieces(line)[0] + " "@ + pieces(line)[1]),
    ensures
        weechat::decoded_line(context, line) matches Some(Ok(event)) && event.ty is Msg
            && weechat::encoded_event(context, event) == Ok::<Seq<char>, ErrorView>(line),
{
    let t = pieces(line);
    let s = cuts(line);
    assert(closed(line) == line);
    law_tokens_give_the_line_back(line);
    law_line_is_head_and_rest(line, 3);
    reveal_strlit(" ");
    reveal_strlit("\t");
    reveal_strlit("\n");
    let content = rejoined(t.skip(3), s.skip(3));
    assert(weechat::reading(t, s) == weechat::Reading::Found(
        TypeView::Msg { from: t[2], content },
        None,
    ));
    assert(interleaved(t, s, 3) == interleaved(t, s, 2) + t[2].push(s[2]));
    assert(interleaved(t, s, 2) == interleaved(t, s, 1) + t[1].push(s[1]));
    assert(interleaved(t, s, 1) == interleaved(t, s, 0) + t[0].push(s[0]));
    let out = (t[0] + " "@ + t[1]) + "\t"@ + t[2] + "\t"@ + content + "\n"@;
    assert(out =~= line);
}

/// A change of nick in the energymech dialect is written back as it was
/// read: a line of the form `[time] *** old is now known as new` with a
/// line feed at its end, single blanks between its tokens, and a time that
/// the calendar writes as it stands in the line.
#[verifier::rlimit(80)]
pub proof fn law_energymech_nick_is_written_back(context: ContextView, line: Seq<char>, time: Seq<char>)
    requires
        line.len() > 0,
        line.last() == '\n',
        cuts(line).len() == 8,
        cuts(line)[0] == ' ',
        cuts(line)[1] == ' ',
        cuts(line)[2] == ' ',
        cuts(line)[3] == ' ',
        cuts(line)[4] == ' ',
        cuts(line)[5] == ' ',
        cuts(line)[6] == ' ',
        pieces(line)[1] == "***"@,
        pieces(line)[3] == "is"@,
        pieces(line)[4] == "now"@,
        pieces(line)[5] == "known"@,
        pieces(line)[6] == "as"@,
        pieces(line)[0] == "["@ + time + "]"@,
        rendered(
            energymech::line_time(context, pieces(line)[0]),
            context.timezone_out,
            energymech::time_pattern(),
        ) == Ok::<Seq<char>, ErrorView>(time),
    ensures
        energymech::decoded_line(context, line) matches Some(event) && event.ty is Nick
            && energymech::encoded_event(context, event) == Ok::<Seq<char>, ErrorView>(line),
{
    let t = pieces(line);
    let s = cuts(line);
    assert(closed(line) == line);
    law_tokens_give_the_line_back(line);
    law_line_is_head_and_rest(line, 7);
    reveal_strlit("] *** ");
    assert("] *** "@ =~= seq![']', ' ', '*', '*', '*', ' ']);
    reveal_strlit(" is now known as ");
    assert(" is now known as "@ =~= seq![' ', 'i', 's', ' ', 'n', 'o', 'w', ' ', 'k', 'n', 'o', 'w', 'n', ' ', 'a', 's', ' ']);
    reveal_strlit("is");
    assert("is"@ =~= seq!['i', 's']);
    reveal_strlit("now");
    assert("now"@ =~= seq!['n', 'o', 'w']);
    reveal_strlit("known");
    assert("known"@ =~= seq!['k', 'n', 'o', 'w', 'n']);
    reveal_strlit("as");
    assert("as"@ =~= seq!['a', 's']);
    reveal_strlit("[");
    assert("["@ =~= seq!['[']);
    reveal_strlit("]");
    assert("]"@ =~= seq![']']);
    reveal_strlit("*");
    assert("*"@ =~= seq!['*']);
    reveal_strlit("***");
    assert("***"@ =~= seq!['*', '*', '*']);
    reveal_strlit("\n");
    assert("\n"@ =~= seq!['\n']);
    reveal_strlit(" ");
    assert(" "@ =~= seq![' ']);
    let rest = rejoined(t.skip(7), s.skip(7));
    assert(rest =~= t[7]) by {
        let rt = t.skip(7);
        let rs = s.skip(7);
        assert(shorter(rt.len(), rs.len()) == 1);
        assert(interleaved(rt, rs, 1) == interleaved(rt, rs, 0) + rt[0].push(rs[0]));
        assert(interleaved(rt, rs, 1) =~= t[7].push(s[7]));
    }
    assert(interleaved(t, s, 7) == interleaved(t, s, 6) + t[6].push(s[6]));
    assert(interleaved(t, s, 6) == interleaved(t, s, 5) + t[5].push(s[5]));
    assert(interleaved(t, s, 5) == interleaved(t, s, 4) + t[4].push(s[4]));
    assert(interleaved(t, s, 4) == interleaved(t, s, 3) + t[3].push(s[3]));
    assert(interleaved(t, s, 3) == interleaved(t, s, 2) + t[2].push(s[2]));
    assert(interleaved(t, s, 2) == interleaved(t, s, 1) + t[1].push(s[1]));
    assert(interleaved(t, s, 1) == interleaved(t, s, 0) + t[0].push(s[0]));
    let head = t[0].push(s[0]) + t[1].push(s[1]) + t[2].push(s[2]) + t[3].push(s[3]) + t[4].push(s[4]) + t[5].push(s[5]) + t[6].push(s[6]);
    assert(interleaved(t, s, 7) =~= head);
    assert(t[0] =~= seq!['['] + time + seq![']']);
    assert(t[1] != "*"@);
    assert(energymech::kind(t, s) == Some(TypeView::Nick { old_nick: t[2], new_nick: t[7] }));
    let out = "["@ + time + "] *** "@ + t[2] + " is now known as "@ + t[7] + "\n"@;
    assert(out =~= head + rest.push('\n'));
}

/// A change of modes in the energymech dialect is written back as it
/// was read: a line of the form `[time] *** name sets mode: modes masks`
/// with a line feed at its end, single blanks between its first six
/// tokens, and a time that the calendar writes as it stands in the line.
#[verifier::rlimit(80)]
pub proof fn law_energymech_mode_is_written_back(context: ContextView, line: Seq<char>, time: Seq<char>)
    requires
        line.len() > 0,
        line.last() == '\n',
        cuts(line).len() >= 7,
        cuts(line)[0] == ' ',
        cuts(line)[1] == ' ',
        cuts(line)[2] == ' ',
        cuts(line)[3] == ' ',
        cuts(line)[4] == ' ',
        cuts(line)[5] == ' ',
        pieces(line)[1] == "***"@,
        pieces(line)[3] == "sets"@,
        pieces(line)[4] == "mode:"@,
        pieces(line)[0] == "["@ + time + "]"@,
        rendered(
            energymech::line_time(context, pieces(line)[0]),
            context.timezone_out,
            energymech::time_pattern(),
        ) == Ok::<Seq<char>, ErrorView>(time),
    ensures
        energymech::decoded_line(context, line) matches Some(event) && event.ty is Mode
            && energymech::encoded_event(context, event) == Ok::<Seq<char>, ErrorView>(line),
{
    let t = pieces(line);
    let s = cuts(line);
    assert(closed(line) == line);
    law_tokens_give_the_line_back(line);
    law_line_is_head_and_rest(line, 6);
    reveal_strlit("] *** ");
    assert("] *** "@ =~= seq![']', ' ', '*', '*', '*', ' ']);
    reveal_strlit(" sets mode: ");
    assert(" sets mode: "@ =~= seq![' ', 's', 'e', 't', 's', ' ', 'm', 'o', 'd', 'e', ':', ' ']);
    reveal_strlit("sets");
    assert("sets"@ =~= seq!['s', 'e', 't', 's']);
    reveal_strlit("mode:");
    assert("mode:"@ =~= seq!['m', 'o', 'd', 'e', ':']);
    reveal_strlit("is");
    assert("is"@ =~= seq!['i', 's']);
    reveal_strlit("was");
    assert("was"@ =~= seq!['w', 'a', 's']);
    reveal_strlit("[");
    assert("["@ =~= seq!['[']);
    reveal_strlit("]");
    assert("]"@ =~= seq![']']);
    reveal_strlit("*");
    assert("*"@ =~= seq!['*']);
    reveal_strlit("***");
    assert("***"@ =~= seq!['*', '*', '*']);
    reveal_strlit("\n");
    assert("\n"@ =~= seq!['\n']);
    reveal_strlit(" ");
    assert(" "@ =~= seq![' ']);
    let rest = rejoined(t.skip(6), s.skip(6));
    assert(interleaved(t, s, 6) == interleaved(t, s, 5) + t[5].push(s[5]));
    assert(interleaved(t, s, 5) == interleaved(t, s, 4) + t[4].push(s[4]));
    assert(interleaved(t, s, 4) == interleaved(t, s, 3) + t[3].push(s[3]));
    assert(interleaved(t, s, 3) == interleaved(t, s, 2) + t[2].push(s[2]));
    assert(interleaved(t, s, 2) == interleaved(t, s, 1) + t[1].push(s[1]));
    assert(interleaved(t, s, 1) == interleaved(t, s, 0) + t[0].push(s[0]));
    let head = t[0].push(s[0]) + t[1].push(s[1]) + t[2].push(s[2]) + t[3].push(s[3]) + t[4].push(s[4]) + t[5].push(s[5]);
    assert(interleaved(t, s, 6) =~= head);
    assert(t[0] =~= seq!['['] + time + seq![']']);
    assert(t[1] != "*"@);
    assert(t[3] != "is"@ && t[3] != "was"@) by {
        assert(t[3][0] == 's');
    }
    assert(energymech::kind(t, s) == Some(TypeView::Mode { nick: Some(t[2]), mode: t[5], masks: rest }));
    let out = "["@ + time + "] *** "@ + t[2] + " sets mode: "@ + t[5] + " "@ + rest + "\n"@;
    assert(out =~= head + rest.push('\n'));
}

/// A join in the energymech dialect is written back as it was read: a
/// line of the form `[time] *** Joins: name (mask)` with a line feed at
/// its end, single blanks between its tokens, and a time that the calendar
/// writes as it stands in the line.
#[verifier::rlimit(80)]
pub proof fn law_energymech_join_is_written_back(context: ContextView, line: Seq<char>, time: Seq<char>)
    requires
        line.len() > 0,
        line.last() == '\n',
        cuts(line).len() == 5,
        cuts(line)[0] == ' ',
        cuts(line)[1] == ' ',
        cuts(line)[2] == ' ',
        cuts(line)[3] == ' ',
        pieces(line)[1] == "***"@,
        pieces(line)[2] == "Joins:"@,
        energymech::fenced(pieces(line)[4], '(', ')'),
        pieces(line)[4].len() >= 2,
        pieces(line)[0] == "["@ + time + "]"@,
        rendered(
            energymech::line_time(context, pieces(line)[0]),
            context.timezone_out,
            energymech::time_pattern(),
        ) == Ok::<Seq<char>, ErrorView>(time),
    ensures
        energymech::decoded_line(context, line) matches Some(event) && event.ty is Join
            && energymech::encoded_event(context, event) == Ok::<Seq<char>, ErrorView>(line),
{
    let t = pieces(line);
    let s = cuts(line);
    assert(closed(line) == line);
    law_tokens_give_the_line_back(line);
    law_line_is_head_and_rest(line, 4);
    reveal_strlit("] *** Joins: ");
    assert("] *** Joins: "@ =~= seq![']', ' ', '*', '*', '*', ' ', 'J', 'o', 'i', 'n', 's', ':', ' ']);
    reveal_strlit(" (");
    assert(" ("@ =~= seq![' ', '(']);
    reveal_strlit(")\n");
    assert(")\n"@ =~= seq![')', '\n']);
    reveal_strlit("Joins:");
    assert("Joins:"@ =~= seq!['J', 'o', 'i', 'n', 's', ':']);
    reveal_strlit("[");
    assert("["@ =~= seq!['[']);
    reveal_strlit("]");
    assert("]"@ =~= seq![']']);
    reveal_strlit("*");
    assert("*"@ =~= seq!['*']);
    reveal_strlit("***");
    assert("***"@ =~= seq!['*', '*', '*']);
    reveal_strlit("\n");
    assert("\n"@ =~= seq!['\n']);
    reveal_strlit(" ");
    assert(" "@ =~= seq![' ']);
    let rest = rejoined(t.skip(4), s.skip(4));
    assert(rest =~= t[4]) by {
        let rt = t.skip(4);
        let rs = s.skip(4);
        assert(shorter(rt.len(), rs.len()) == 1);
        assert(interleaved(rt, rs, 1) == interleaved(rt, rs, 0) + rt[0].push(rs[0]));
        assert(interleaved(rt, rs, 1) =~= t[4].push(s[4]));
    }
    assert(interleaved(t, s, 4) == interleaved(t, s, 3) + t[3].push(s[3]));
    assert(interleaved(t, s, 3) == interleaved(t, s, 2) + t[2].push(s[2]));
    assert(interleaved(t, s, 2) == interleaved(t, s, 1) + t[1].push(s[1]));
    assert(interleaved(t, s, 1) == interleaved(t, s, 0) + t[0].push(s[0]));
    let head = t[0].push(s[0]) + t[1].push(s[1]) + t[2].push(s[2]) + t[3].push(s[3]);
    assert(interleaved(t, s, 4) =~= head);
    assert(t[0] =~= seq!['['] + time + seq![']']);
    assert(t[1] != "*"@);
    assert(t[4] =~= seq!['('] + inner(t[4]) + seq![')']);
    assert(energymech::kind(t, s) == Some(TypeView::Join { nick: t[3], mask: Some(inner(t[4])) }));
    let out = "["@ + time + "] *** Joins: "@ + t[3] + " ("@ + inner(t[4]) + ")\n"@;
    assert(out =~= head + rest.push('\n'));
}

/// A part in the energymech dialect is written back as it was read: a
/// line of the form `[time] *** Parts: name (mask) (reason)` with a line
/// feed at its end, single blanks between its first five tokens, and a
/// time that the calendar writes as it stands in the line.
#[verifier::rlimit(80)]
pub proof fn law_energymech_part_is_written_back(context: ContextView, line: Seq<char>, time: Seq<char>)
    requires
        line.len() > 0,
        line.last() == '\n',
        cuts(line).len() >= 6,
        cuts(line)[0] == ' ',
        cuts(line)[1] == ' ',
        cuts(line)[2] == ' ',
        cuts(line)[3] == ' ',
        cuts(line)[4] == ' ',
        pieces(line)[1] == "***"@,
        pieces(line)[2] == "Parts:"@,
        energymech::fenced(pieces(line)[4], '(', ')'),
        pieces(line)[4].len() >= 2,
        energymech::fenced(rejoined(pieces(line).skip(5), cuts(line).skip(5)), '(', ')'),
        rejoined(pieces(line).skip(5), cuts(line).skip(5)).len() >= 2,
        pieces(line)[0] == "["@ + time + "]"@,
        rendered(
            energymech::line_time(context, pieces(line)[0]),
            context.timezone_out,
            energymech::time_pattern(),
        ) == Ok::<Seq<char>, ErrorView>(time),
    ensures
        energymech::decoded_line(context, line) matches Some(event) && event.ty is Part
            && energymech::encoded_event(context, event) == Ok::<Seq<char>, ErrorView>(line),
{
    let t = pieces(line);
    let s = cuts(line);
    assert(closed(line) == line);
    law_tokens_give_the_line_back(line);
    law_line_is_head_and_rest(line, 5);
    reveal_strlit("] *** Parts: ");
    assert("] *** Parts: "@ =~= seq![']', ' ', '*', '*', '*', ' ', 'P', 'a', 'r', 't', 's', ':', ' ']);
    reveal_strlit(" (");
    assert(" ("@ =~= seq![' ', '(']);
    reveal_strlit(") (");
    assert(") ("@ =~= seq![')', ' ', '(']);
    reveal_strlit(")\n");
    assert(")\n"@ =~= seq![')', '\n']);
    reveal_strlit("Parts:");
    assert("Parts:"@ =~= seq!['P', 'a', 'r', 't', 's', ':']);
    reveal_strlit("now");
    assert("now"@ =~= seq!['n', 'o', 'w']);
    reveal_strlit("kicked");
    assert("kicked"@ =~= seq!['k', 'i', 'c', 'k', 'e', 'd']);
    reveal_strlit("mode:");
    assert("mode:"@ =~= seq!['m', 'o', 'd', 'e', ':']);
    reveal_strlit("Joins:");
    assert("Joins:"@ =~= seq!['J', 'o', 'i', 'n', 's', ':']);
    reveal_strlit("Quits:");
    assert("Quits:"@ =~= seq!['Q', 'u', 'i', 't', 's', ':']);
    reveal_strlit("[");
    assert("["@ =~= seq!['[']);
    reveal_strlit("]");
    assert("]"@ =~= seq![']']);
    reveal_strlit("*");
    assert("*"@ =~= seq!['*']);
    reveal_strlit("***");
    assert("***"@ =~= seq!['*', '*', '*']);
    reveal_strlit("\n");
    assert("\n"@ =~= seq!['\n']);
    reveal_strlit(" ");
    assert(" "@ =~= seq![' ']);
    let rest = rejoined(t.skip(5), s.skip(5));
    assert(interleaved(t, s, 5) == interleaved(t, s, 4) + t[4].push(s[4]));
    assert(interleaved(t, s, 4) == interleaved(t, s, 3) + t[3].push(s[3]));
    assert(interleaved(t, s, 3) == interleaved(t, s, 2) + t[2].push(s[2]));
    assert(interleaved(t, s, 2) == interleaved(t, s, 1) + t[1].push(s[1]));
    assert(interleaved(t, s, 1) == interleaved(t, s, 0) + t[0].push(s[0]));
    let head = t[0].push(s[0]) + t[1].push(s[1]) + t[2].push(s[2]) + t[3].push(s[3]) + t[4].push(s[4]);
    assert(interleaved(t, s, 5) =~= head);
    assert(t[0] =~= seq!['['] + time + seq![']']);
    assert(t[1] != "*"@);
    assert(t[4] != "now"@ && t[4] != "kicked"@ && t[4] != "mode:"@) by {
        assert(t[4][0] == '(');
    }
    assert(t[2] != "Joins:"@) by {
        assert(t[2][0] == 'P');
    }
    assert(t[2] != "Quits:"@) by {
        assert(t[2][0] == 'P');
    }
    assert(t[4] =~= seq!['('] + inner(t[4]) + seq![')']);
    assert(rest =~= seq!['('] + inner(rest) + seq![')']);
    assert(energymech::kind(t, s) == Some(TypeView::Part { nick: t[3], mask: Some(inner(t[4])), reason: Some(inner(rest)) }));
    let out = "["@ + time + "] *** Parts: "@ + t[3] + " ("@ + inner(t[4]) + ") ("@ + inner(rest) + ")\n"@;
    assert(out =~= head + rest.push('\n'));
}

/// A quit in the energymech dialect is written back as it was read: a
/// line of the form `[time] *** Quits: name (mask) (reason)` with a line
/// feed at its end, single blanks between its first five tokens, and a
/// time that the calendar writes as it stands in the line.
#[verifier::rlimit(80)]
pub proof fn law_energymech_quit_is_written_back(context: ContextView, line: Seq<char>, time: Seq<char>)
    requires
        line.len() > 0,
        line.last() == '\n',
        cuts(line).len() >= 6,
        cuts(line)[0] == ' ',
        cuts(line)[1] == ' ',
        cuts(line)[2] == ' ',
        cuts(line)[3] == ' ',
        cuts(line)[4] == ' ',
        pieces(line)[1] == "***"@,
        pieces(line)[2] == "Quits:"@,
        energymech::fenced(pieces(line)[4], '(', ')'),
        pieces(line)[4].len() >= 2,
        energymech::fenced(rejoined(pieces(line).skip(5), cuts(line).skip(5)), '(', ')'),
        rejoined(pieces(line).skip(5), cuts(line).skip(5)).len() >= 2,
        pieces(line)[0] == "["@ + time + "]"@,
        rendered(
            energymech::line_time(context, pieces(line)[0]),
            context.timezone_out,
            energymech::time_pattern(),
        ) == Ok::<Seq<char>, ErrorView>(time),
    ensures
        energymech::decoded_line(context, line) matches Some(event) && event.ty is Quit
            && energymech::encoded_event(context, event) == Ok::<Seq<char>, ErrorView>(line),
{
    let t = pieces(line);
    let s = cuts(line);
    assert(closed(line) == line);
    law_tokens_give_the_line_back(line);
    law_line_is_head_and_rest(line, 5);
    reveal_strlit("] *** Quits: ");
    assert("] *** Quits: "@ =~= seq![']', ' ', '*', '*', '*', ' ', 'Q', 'u', 'i', 't', 's', ':', ' ']);
    reveal_strlit(" (");
    assert(" ("@ =~= seq![' ', '(']);
    reveal_strlit(") (");
    assert(") ("@ =~= seq![')', ' ', '(']);
    reveal_strlit(")\n");
    assert(")\n"@ =~= seq![')', '\n']);
    reveal_strlit("Quits:");
    assert("Quits:"@ =~= seq!['Q', 'u', 'i', 't', 's', ':']);
    reveal_strlit("now");
    assert("now"@ =~= seq!['n', 'o', 'w']);
    reveal_strlit("kicked");
    assert("kicked"@ =~= seq!['k', 'i', 'c', 'k', 'e', 'd']);
    reveal_strlit("mode:");
    assert("mode:"@ =~= seq!['m', 'o', 'd', 'e', ':']);
    reveal_strlit("Joins:");
    assert("Joins:"@ =~= seq!['J', 'o', 'i', 'n', 's', ':']);
    reveal_strlit("Parts:");
    assert("Parts:"@ =~= seq!['P', 'a', 'r', 't', 's', ':']);
    reveal_strlit("[");
    assert("["@ =~= seq!['[']);
    reveal_strlit("]");
    assert("]"@ =~= seq![']']);
    reveal_strlit("*");
    assert("*"@ =~= seq!['*']);
    reveal_strlit("***");
    assert("***"@ =~= seq!['*', '*', '*']);
    reveal_strlit("\n");
    assert("\n"@ =~= seq!['\n']);
    reveal_strlit(" ");
    assert(" "@ =~= seq![' ']);
    let rest = rejoined(t.skip(5), s.skip(5));
    assert(interleaved(t, s, 5) == interleaved(t, s, 4) + t[4].push(s[4]));
    assert(interleaved(t, s, 4) == interleaved(t, s, 3) + t[3].push(s[3]));
    assert(interleaved(t, s, 3) == interleaved(t, s, 2) + t[2].push(s[2]));
    assert(interleaved(t, s, 2) == interleaved(t, s, 1) + t[1].push(s[1]));
    assert(interleaved(t, s, 1) == interleaved(t, s, 0) + t[0].push(s[0]));
    let head = t[0].push(s[0]) + t[1].push(s[1]) + t[2].push(s[2]) + t[3].push(s[3]) + t[4].push(s[4]);
    assert(interleaved(t, s, 5) =~= head);
    assert(t[0] =~= seq!['['] + time + seq![']']);
    assert(t[1] != "*"@);
    assert(t[4] != "now"@ && t[4] != "kicked"@ && t[4] != "mode:"@) by {
        assert(t[4][0] == '(');
    }
    assert(t[2] != "Joins:"@) by {
        assert(t[2][0] == 'Q');
    }
    assert(t[2] != "Parts:"@) by {
        assert(t[2][0] == 'Q');
    }
    assert(t[4] =~= seq!['('] + inner(t[4]) + seq![')']);
    assert(rest =~= seq!['('] + inner(rest) + seq![')']);
    assert(energymech::kind(t, s) == Some(TypeView::Quit { nick: t[3], mask: Some(inner(t[4])), reason: Some(inner(rest)) }));
    let out = "["@ + time + "] *** Quits: "@ + t[3] + " ("@ + inner(t[4]) + ") ("@ + inner(rest) + ")\n"@;
    assert(out =~= head + rest.push('\n'));
}

/// A change of topic in the energymech dialect is written back as it was
/// read: a line of the form `[time] *** name changes topic to 'topic'`
/// with a line feed at its end, single blanks between its first six
/// tokens, a name that is none of the words `Joins:`, `Parts:` and
/// `Quits:`, and a time that the calendar writes as it stands in the line.
#[verifier::rlimit(80)]
pub proof fn law_energymech_topic_change_is_written_back(context: ContextView, line: Seq<char>, time: Seq<char>)
    requires
        line.len() > 0,
        line.last() == '\n',
        cuts(line).len() >= 7,
        cuts(line)[0] == ' ',
        cuts(line)[1] == ' ',
        cuts(line)[2] == ' ',
        cuts(line)[3] == ' ',
        cuts(line)[4] == ' ',
        cuts(line)[5] == ' ',
        pieces(line)[1] == "***"@,
        pieces(line)[3] == "changes"@,
        pieces(line)[4] == "topic"@,
        pieces(line)[5] == "to"@,
        pieces(line)[2] != "Joins:"@,
        pieces(line)[2] != "Parts:"@,
        pieces(line)[2] != "Quits:"@,
        energymech::fenced(rejoined(pieces(line).skip(6), cuts(line).skip(6)), '\'', '\''),
        rejoined(pieces(line).skip(6), cuts(line).skip(6)).len() >= 2,
        pieces(line)[0] == "["@ + time + "]"@,
        rendered(
            energymech::line_time(context, pieces(line)[0]),
            context.timezone_out,
            energymech::time_pattern(),
        ) == Ok::<Seq<char>, ErrorView>(time),
    ensures
        energymech::decoded_line(context, line) matches Some(event) && event.ty is TopicChange
            && energymech::encoded_event(context, event) == Ok::<Seq<char>, ErrorView>(line),
{
    let t = pieces(line);
    let s = cuts(line);
    assert(closed(line) == line);
    law_tokens_give_the_line_back(line);
    law_line_is_head_and_rest(line, 6);
    reveal_strlit("] *** ");
    assert("] *** "@ =~= seq![']', ' ', '*', '*', '*', ' ']);
    reveal_strlit(" changes topic to '");
    assert(" changes topic to '"@ =~= seq![' ', 'c', 'h', 'a', 'n', 'g', 'e', 's', ' ', 't', 'o', 'p', 'i', 'c', ' ', 't', 'o', ' ', '\'']);
    reveal_strlit("'\n");
    assert("'\n"@ =~= seq!['\'', '\n']);
    reveal_strlit("changes");
    assert("changes"@ =~= seq!['c', 'h', 'a', 'n', 'g', 'e', 's']);
    reveal_strlit("topic");
    assert("topic"@ =~= seq!['t', 'o', 'p', 'i', 'c']);
    reveal_strlit("to");
    assert("to"@ =~= seq!['t', 'o']);
    reveal_strlit("is");
    assert("is"@ =~= seq!['i', 's']);
    reveal_strlit("was");
    assert("was"@ =~= seq!['w', 'a', 's']);
    reveal_strlit("sets");
    assert("sets"@ =~= seq!['s', 'e', 't', 's']);
    reveal_strlit("[");
    assert("["@ =~= seq!['[']);
    reveal_strlit("]");
    assert("]"@ =~= seq![']']);
    reveal_strlit("*");
    assert("*"@ =~= seq!['*']);
    reveal_strlit("***");
    assert("***"@ =~= seq!['*', '*', '*']);
    reveal_strlit("\n");
    assert("\n"@ =~= seq!['\n']);
    reveal_strlit(" ");
    assert(" "@ =~= seq![' ']);
    let rest = rejoined(t.skip(6), s.skip(6));
    assert(interleaved(t, s, 6) == interleaved(t, s, 5) + t[5].push(s[5]));
    assert(interleaved(t, s, 5) == interleaved(t, s, 4) + t[4].push(s[4]));
    assert(interleaved(t, s, 4) == interleaved(t, s, 3) + t[3].push(s[3]));
    assert(interleaved(t, s, 3) == interleaved(t, s, 2) + t[2].push(s[2]));
    assert(interleaved(t, s, 2) == interleaved(t, s, 1) + t[1].push(s[1]));
    assert(interleaved(t, s, 1) == interleaved(t, s, 0) + t[0].push(s[0]));
    let head = t[0].push(s[0]) + t[1].push(s[1]) + t[2].push(s[2]) + t[3].push(s[3]) + t[4].push(s[4]) + t[5].push(s[5]);
    assert(interleaved(t, s, 6) =~= head);
    assert(t[0] =~= seq!['['] + time + seq![']']);
    assert(t[1] != "*"@);
    assert(t[3] != "is"@ && t[3] != "was"@ && t[3] != "sets"@) by {
        assert(t[3][0] == 'c');
    }
    assert(rest =~= seq!['\''] + inner(rest) + seq!['\'']);
    assert(energymech::kind(t, s) == Some(TypeView::TopicChange { nick: Some(t[2]), new_topic: inner(rest) }));
    let out = "["@ + time + "] *** "@ + t[2] + " changes topic to '"@ + inner(rest) + "'\n"@;
    assert(out =~= head + rest.push('\n'));
}

/// An action in the WeeChat dialect is written back as it was read: a
/// line of the form `date time<tab> *<tab>name text` with a line feed at
/// its end and a time that the calendar writes as it stands in the line.
/// The first word of the text is not `has`.
#[verifier::rlimit(80)]
pub proof fn law_weechat_action_is_written_back(context: ContextView, line: Seq<char>)
    requires
        line.len() > 0,
        line.last() == '\n',
        cuts(line).len() >= 6,
        cuts(line)[0] == ' ',
        cuts(line)[1] == '\t',
        cuts(line)[2] == ' ',
        cuts(line)[3] == '\t',
        cuts(line)[4] == ' ',
        weechat::at(pieces(line), 5) != "has"@,
        pieces(line)[2].len() == 0,
        pieces(line)[3] == "*"@,
        rendered(
            weechat::line_time(context, pieces(line)[0], pieces(line)[1]),
            context.timezone_out,
            weechat::time_pattern(),
        ) == Ok::<Seq<char>, ErrorView>(pieces(line)[0] + " "@ + pieces(line)[1]),
    ensures
        weechat::decoded_line(context, line) matches Some(Ok(event)) && event.ty is Action
            && weechat::encoded_event(context, event) == Ok::<Seq<char>, ErrorView>(line),
{
    let t = pieces(line);
    let s = cuts(line);
    assert(closed(line) == line);
    law_tokens_give_the_line_back(line);
    law_line_is_head_and_rest(line, 5);
    reveal_strlit("\t *\t");
    assert("\t *\t"@ =~= seq!['\t', ' ', '*', '\t']);
    reveal_strlit("*");
    assert("*"@ =~= seq!['*']);
    reveal_strlit("--");
    assert("--"@ =~= seq!['-', '-']);
    reveal_strlit("\t");
    assert("\t"@ =~= seq!['\t']);
    reveal_strlit("\n");
    assert("\n"@ =~= seq!['\n']);
    reveal_strlit(" ");
    assert(" "@ =~= seq![' ']);
    let rest = rejoined(t.skip(5), s.skip(5));
    assert(interleaved(t, s, 5) == interleaved(t, s, 4) + t[4].push(s[4]));
    assert(interleaved(t, s, 4) == interleaved(t, s, 3) + t[3].push(s[3]));
    assert(interleaved(t, s, 3) == interleaved(t, s, 2) + t[2].push(s[2]));
    assert(interleaved(t, s, 2) == interleaved(t, s, 1) + t[1].push(s[1]));
    assert(interleaved(t, s, 1) == interleaved(t, s, 0) + t[0].push(s[0]));
    let head = t[0].push(s[0]) + t[1].push(s[1]) + t[2].push(s[2]) + t[3].push(s[3]) + t[4].push(s[4]);
    assert(interleaved(t, s, 5) =~= head);
    assert(t[2] != "--"@);
    assert(t[2] =~= Seq::<char>::empty());
    assert(t[3] =~= seq!['*']);
    assert(weechat::reading(t, s) == weechat::Reading::Found(TypeView::Action { from: t[4], content: rest }, None));
    let out = (t[0] + " "@ + t[1]) + "\t *\t"@ + t[4] + " "@ + rest + "\n"@;
    assert(out =~= head + rest.push('\n'));
}

/// A join in the WeeChat dialect is written back as it was read: a line
/// of the form `date time<tab>--><tab>name (mask) has joined channel`
/// with a line feed at its end and a time that the calendar writes as it
/// stands in the line.
#[verifier::rlimit(80)]
pub proof fn law_weechat_join_is_written_back(context: ContextView, line: Seq<char>)
    requires
        line.len() > 0,
        line.last() == '\n',
        cuts(line).len() == 8,
        cuts(line)[0] == ' ',
        cuts(line)[1] == '\t',
        cuts(line)[2] == '\t',
        cuts(line)[3] == ' ',
        cuts(line)[4] == ' ',
        cuts(line)[5] == ' ',
        cuts(line)[6] == ' ',
        pieces(line)[2] == "-->"@,
        pieces(line)[5] == "has"@,
        pieces(line)[6] == "joined"@,
        energymech::fenced(pieces(line)[4], '(', ')'),
        pieces(line)[4].len() >= 2,
        rendered(
            weechat::line_time(context, pieces(line)[0], pieces(line)[1]),
            context.timezone_out,
            weechat::time_pattern(),
        ) == Ok::<Seq<char>, ErrorView>(pieces(line)[0] + " "@ + pieces(line)[1]),
    ensures
        weechat::decoded_line(context, line) matches Some(Ok(event)) && event.ty is Join
            && weechat::encoded_event(context, event) == Ok::<Seq<char>, ErrorView>(line),
{
    let t = pieces(line);
    let s = cuts(line);
    assert(closed(line) == line);
    law_tokens_give_the_line_back(line);
    law_line_is_head_and_rest(line, 7);
    reveal_strlit("\t-->\t");
    assert("\t-->\t"@ =~= seq!['\t', '-', '-', '>', '\t']);
    reveal_strlit(" (");
    assert(" ("@ =~= seq![' ', '(']);
    reveal_strlit(") has joined ");
    assert(") has joined "@ =~= seq![')', ' ', 'h', 'a', 's', ' ', 'j', 'o', 'i', 'n', 'e', 'd', ' ']);
    reveal_strlit("-->");
    assert("-->"@ =~= seq!['-', '-', '>']);
    reveal_strlit("has");
    assert("has"@ =~= seq!['h', 'a', 's']);
    reveal_strlit("joined");
    assert("joined"@ =~= seq!['j', 'o', 'i', 'n', 'e', 'd']);
    reveal_strlit("\t");
    assert("\t"@ =~= seq!['\t']);
    reveal_strlit("\n");
    assert("\n"@ =~= seq!['\n']);
    reveal_strlit(" ");
    assert(" "@ =~= seq![' ']);
    let rest = rejoined(t.skip(7), s.skip(7));
    assert(rest =~= t[7]) by {
        let rt = t.skip(7);
        let rs = s.skip(7);
        assert(shorter(rt.len(), rs.len()) == 1);
        assert(interleaved(rt, rs, 1) == interleaved(rt, rs, 0) + rt[0].push(rs[0]));
        assert(interleaved(rt, rs, 1) =~= t[7].push(s[7]));
    }
    assert(interleaved(t, s, 7) == interleaved(t, s, 6) + t[6].push(s[6]));
    assert(interleaved(t, s, 6) == interleaved(t, s, 5) + t[5].push(s[5]));
    assert(interleaved(t, s, 5) == interleaved(t, s, 4) + t[4].push(s[4]));
    assert(interleaved(t, s, 4) == interleaved(t, s, 3) + t[3].push(s[3]));
    assert(interleaved(t, s, 3) == interleaved(t, s, 2) + t[2].push(s[2]));
    assert(interleaved(t, s, 2) == interleaved(t, s, 1) + t[1].push(s[1]));
    assert(interleaved(t, s, 1) == interleaved(t, s, 0) + t[0].push(s[0]));
    let head = t[0].push(s[0]) + t[1].push(s[1]) + t[2].push(s[2]) + t[3].push(s[3]) + t[4].push(s[4]) + t[5].push(s[5]) + t[6].push(s[6]);
    assert(interleaved(t, s, 7) =~= head);
    assert(t[4] =~= seq!['('] + inner(t[4]) + seq![')']);
    assert(weechat::reading(t, s) == weechat::Reading::Found(TypeView::Join { nick: t[3], mask: Some(inner(t[4])) }, Some(t[7])));
    let out = (t[0] + " "@ + t[1]) + "\t-->\t"@ + t[3] + " ("@ + inner(t[4]) + ") has joined "@ + t[7] + "\n"@;
    assert(out =~= head + rest.push('\n'));
}

/// Somebody's leaving with a reason, in the WeeChat dialect, is written
/// back as it was read: a line of the form
/// `date time<tab><--<tab>name (mask) has left channel (reason)` with a
/// line feed at its end, a reason that is not empty, and a time that the
/// calendar writes as it stands in the line.
#[verifier::rlimit(80)]
pub proof fn law_weechat_part_is_written_back(context: ContextView, line: Seq<char>)
    requires
        line.len() > 0,
        line.last() == '\n',
        cuts(line).len() >= 9,
        cuts(line)[0] == ' ',
        cuts(line)[1] == '\t',
        cuts(line)[2] == '\t',
        cuts(line)[3] == ' ',
        cuts(line)[4] == ' ',
        cuts(line)[5] == ' ',
        cuts(line)[6] == ' ',
        cuts(line)[7] == ' ',
        pieces(line)[2] == "<--"@,
        pieces(line)[5] == "has"@,
        pieces(line)[6] == "left"@,
        energymech::fenced(pieces(line)[4], '(', ')'),
        pieces(line)[4].len() >= 2,
        energymech::fenced(rejoined(pieces(line).skip(8), cuts(line).skip(8)), '(', ')'),
        rejoined(pieces(line).skip(8), cuts(line).skip(8)).len() >= 3,
        rendered(
            weechat::line_time(context, pieces(line)[0], pieces(line)[1]),
            context.timezone_out,
            weechat::time_pattern(),
        ) == Ok::<Seq<char>, ErrorView>(pieces(line)[0] + " "@ + pieces(line)[1]),
    ensures
        weechat::decoded_line(context, line) matches Some(Ok(event)) && event.ty is Part
            && weechat::encoded_event(context, event) == Ok::<Seq<char>, ErrorView>(line),
{
    let t = pieces(line);
    let s = cuts(line);
    assert(closed(line) == line);
    law_tokens_give_the_line_back(line);
    law_line_is_head_and_rest(line, 8);
    reveal_strlit("\t<--\t");
    assert("\t<--\t"@ =~= seq!['\t', '<', '-', '-', '\t']);
    reveal_strlit(" (");
    assert(" ("@ =~= seq![' ', '(']);
    reveal_strlit(") has left ");
    assert(") has left "@ =~= seq![')', ' ', 'h', 'a', 's', ' ', 'l', 'e', 'f', 't', ' ']);
    reveal_strlit(")");
    assert(")"@ =~= seq![')']);
    reveal_strlit("<--");
    assert("<--"@ =~= seq!['<', '-', '-']);
    reveal_strlit("has");
    assert("has"@ =~= seq!['h', 'a', 's']);
    reveal_strlit("left");
    assert("left"@ =~= seq!['l', 'e', 'f', 't']);
    reveal_strlit("joined");
    assert("joined"@ =~= seq!['j', 'o', 'i', 'n', 'e', 'd']);
    reveal_strlit("\t");
    assert("\t"@ =~= seq!['\t']);
    reveal_strlit("\n");
    assert("\n"@ =~= seq!['\n']);
    reveal_strlit(" ");
    assert(" "@ =~= seq![' ']);
    let rest = rejoined(t.skip(8), s.skip(8));
    assert(interleaved(t, s, 8) == interleaved(t, s, 7) + t[7].push(s[7]));
    assert(interleaved(t, s, 7) == interleaved(t, s, 6) + t[6].push(s[6]));
    assert(interleaved(t, s, 6) == interleaved(t, s, 5) + t[5].push(s[5]));
    assert(interleaved(t, s, 5) == interleaved(t, s, 4) + t[4].push(s[4]));
    assert(interleaved(t, s, 4) == interleaved(t, s, 3) + t[3].push(s[3]));
    assert(interleaved(t, s, 3) == interleaved(t, s, 2) + t[2].push(s[2]));
    assert(interleaved(t, s, 2) == interleaved(t, s, 1) + t[1].push(s[1]));
    assert(interleaved(t, s, 1) == interleaved(t, s, 0) + t[0].push(s[0]));
    let head = t[0].push(s[0]) + t[1].push(s[1]) + t[2].push(s[2]) + t[3].push(s[3]) + t[4].push(s[4]) + t[5].push(s[5]) + t[6].push(s[6]) + t[7].push(s[7]);
    assert(interleaved(t, s, 8) =~= head);
    assert(t[6] != "joined"@) by {
        assert(t[6][0] == 'l');
    }
    assert(t[4] =~= seq!['('] + inner(t[4]) + seq![')']);
    assert(rest =~= seq!['('] + inner(rest) + seq![')']);
    assert(weechat::reason_suffix(Some(inner(rest))) =~= seq![' ', '('] + inner(rest) + seq![')']);
    assert(weechat::reading(t, s) == weechat::Reading::Found(TypeView::Part { nick: t[3], mask: Some(inner(t[4])), reason: Some(inner(rest)) }, Some(t[7])));
    let out = (t[0] + " "@ + t[1]) + "\t<--\t"@ + t[3] + " ("@ + inner(t[4]) + ") has left "@ + t[7] + weechat::reason_suffix(Some(inner(rest))) + "\n"@;
    assert(out =~= head + rest.push('\n'));
}

/// Somebody's quitting with a reason, in the WeeChat dialect, is written
/// back as it was read: a line of the form
/// `date time<tab><--<tab>name (mask) has quit (reason)` with a line feed
/// at its end, a reason that is not empty, and a time that the calendar
/// writes as it stands in the line.
#[verifier::rlimit(80)]
pub proof fn law_weechat_quit_is_written_back(context: ContextView, line: Seq<char>)
    requires
        line.len() > 0,
        line.last() == '\n',
        cuts(line).len() >= 8,
        cuts(line)[0] == ' ',
        cuts(line)[1] == '\t',
        cuts(line)[2] == '\t',
        cuts(line)[3] == ' ',
        cuts(line)[4] == ' ',
        cuts(line)[5] == ' ',
        cuts(line)[6] == ' ',
        pieces(line)[2] == "<--"@,
        pieces(line)[5] == "has"@,
        pieces(line)[6] == "quit"@,
        energymech::fenced(pieces(line)[4], '(', ')'),
        pieces(line)[4].len() >= 2,
        energymech::fenced(rejoined(pieces(line).skip(7), cuts(line).skip(7)), '(', ')'),
        rejoined(pieces(line).skip(7), cuts(line).skip(7)).len() >= 3,
        rendered(
            weechat::line_time(context, pieces(line)[0], pieces(line)[1]),
            context.timezone_out,
            weechat::time_pattern(),
        ) == Ok::<Seq<char>, ErrorView>(pieces(line)[0] + " "@ + pieces(line)[1]),
    ensures
        weechat::decoded_line(context, line) matches Some(Ok(event)) && event.ty is Quit
            && weechat::encoded_event(context, event) == Ok::<Seq<char>, ErrorView>(line),
{
    let t = pieces(line);
    let s = cuts(line);
    assert(closed(line) == line);
    law_tokens_give_the_line_back(line);
    law_line_is_head_and_rest(line, 7);
    reveal_strlit("\t<--\t");
    assert("\t<--\t"@ =~= seq!['\t', '<', '-', '-', '\t']);
    reveal_strlit(" (");
    assert(" ("@ =~= seq![' ', '(']);
    reveal_strlit(") has quit");
    assert(") has quit"@ =~= seq![')', ' ', 'h', 'a', 's', ' ', 'q', 'u', 'i', 't']);
    reveal_strlit(")");
    assert(")"@ =~= seq![')']);
    reveal_strlit("<--");
    assert("<--"@ =~= seq!['<', '-', '-']);
    reveal_strlit("has");
    assert("has"@ =~= seq!['h', 'a', 's']);
    reveal_strlit("quit");
    assert("quit"@ =~= seq!['q', 'u', 'i', 't']);
    reveal_strlit("joined");
    assert("joined"@ =~= seq!['j', 'o', 'i', 'n', 'e', 'd']);
    reveal_strlit("left");
    assert("left"@ =~= seq!['l', 'e', 'f', 't']);
    reveal_strlit("\t");
    assert("\t"@ =~= seq!['\t']);
    reveal_strlit("\n");
    assert("\n"@ =~= seq!['\n']);
    reveal_strlit(" ");
    assert(" "@ =~= seq![' ']);
    let rest = rejoined(t.skip(7), s.skip(7));
    assert(interleaved(t, s, 7) == interleaved(t, s, 6) + t[6].push(s[6]));
    assert(interleaved(t, s, 6) == interleaved(t, s, 5) + t[5].push(s[5]));
    assert(interleaved(t, s, 5) == interleaved(t, s, 4) + t[4].push(s[4]));
    assert(interleaved(t, s, 4) == interleaved(t, s, 3) + t[3].push(s[3]));
    assert(interleaved(t, s, 3) == interleaved(t, s, 2) + t[2].push(s[2]));
    assert(interleaved(t, s, 2) == interleaved(t, s, 1) + t[1].push(s[1]));
    assert(interleaved(t, s, 1) == interleaved(t, s, 0) + t[0].push(s[0]));
    let head = t[0].push(s[0]) + t[1].push(s[1]) + t[2].push(s[2]) + t[3].push(s[3]) + t[4].push(s[4]) + t[5].push(s[5]) + t[6].push(s[6]);
    assert(interleaved(t, s, 7) =~= head);
    assert(t[6] != "joined"@ && t[6] != "left"@) by {
        assert(t[6][0] == 'q');
    }
    assert(t[4] =~= seq!['('] + inner(t[4]) + seq![')']);
    assert(rest =~= seq!['('] + inner(rest) + seq![')']);
    assert(weechat::reason_suffix(Some(inner(rest))) =~= seq![' ', '('] + inner(rest) + seq![')']);
    assert(weechat::reading(t, s) == weechat::Reading::Found(TypeView::Quit { nick: t[3], mask: Some(inner(t[4])), reason: Some(inner(rest)) }, None));
    let out = (t[0] + " "@ + t[1]) + "\t<--\t"@ + t[3] + " ("@ + inner(t[4]) + ") has quit"@ + weechat::reason_suffix(Some(inner(rest))) + "\n"@;
    assert(out =~= head + rest.push('\n'));
}

/// A lost connection in the WeeChat dialect is written back as it was
/// read: the line `date time<tab>--<tab>irc: disconnected from server`
/// with a line feed at its end and a time that the calendar writes as it
/// stands in the line.
#[verifier::rlimit(80)]
pub proof fn law_weechat_disconnect_is_written_back(context: ContextView, line: Seq<char>)
    requires
        line.len() > 0,
        line.last() == '\n',
        cuts(line).len() == 7,
        cuts(line)[0] == ' ',
        cuts(line)[1] == '\t',
        cuts(line)[2] == '\t',
        cuts(line)[3] == ' ',
        cuts(line)[4] == ' ',
        cuts(line)[5] == ' ',
        pieces(line)[2] == "--"@,
        pieces(line)[3] == "irc:"@,
        pieces(line)[4] == "disconnected"@,
        pieces(line)[5] == "from"@,
        pieces(line)[6] == "server"@,
        rendered(
            weechat::line_time(context, pieces(line)[0], pieces(line)[1]),
            context.timezone_out,
            weechat::time_pattern(),
        ) == Ok::<Seq<char>, ErrorView>(pieces(line)[0] + " "@ + pieces(line)[1]),
    ensures
        weechat::decoded_line(context, line) matches Some(Ok(event)) && event.ty is Disconnect
            && weechat::encoded_event(context, event) == Ok::<Seq<char>, ErrorView>(line),
{
    let t = pieces(line);
    let s = cuts(line);
    assert(closed(line) == line);
    law_tokens_give_the_line_back(line);
    law_line_is_head_and_rest(line, 6);
    reveal_strlit("\t--\tirc: disconnected from server\n");
    assert("\t--\tirc: disconnected from server\n"@ =~= seq!['\t', '-', '-', '\t', 'i', 'r', 'c', ':', ' ', 'd', 'i', 's', 'c', 'o', 'n', 'n', 'e', 'c', 't', 'e', 'd', ' ', 'f', 'r', 'o', 'm', ' ', 's', 'e', 'r', 'v', 'e', 'r', '\n']);
    reveal_strlit("--");
    assert("--"@ =~= seq!['-', '-']);
    reveal_strlit("irc:");
    assert("irc:"@ =~= seq!['i', 'r', 'c', ':']);
    reveal_strlit("disconnected");
    assert("disconnected"@ =~= seq!['d', 'i', 's', 'c', 'o', 'n', 'n', 'e', 'c', 't', 'e', 'd']);
    reveal_strlit("from");
    assert("from"@ =~= seq!['f', 'r', 'o', 'm']);
    reveal_strlit("server");
    assert("server"@ =~= seq!['s', 'e', 'r', 'v', 'e', 'r']);
    reveal_strlit("has");
    assert("has"@ =~= seq!['h', 'a', 's']);
    reveal_strlit("Notice(");
    assert("Notice("@ =~= seq!['N', 'o', 't', 'i', 'c', 'e', '(']);
    reveal_strlit("\t");
    assert("\t"@ =~= seq!['\t']);
    reveal_strlit("\n");
    assert("\n"@ =~= seq!['\n']);
    reveal_strlit(" ");
    assert(" "@ =~= seq![' ']);
    let rest = rejoined(t.skip(6), s.skip(6));
    assert(rest =~= t[6]) by {
        let rt = t.skip(6);
        let rs = s.skip(6);
        assert(shorter(rt.len(), rs.len()) == 1);
        assert(interleaved(rt, rs, 1) == interleaved(rt, rs, 0) + rt[0].push(rs[0]));
        assert(interleaved(rt, rs, 1) =~= t[6].push(s[6]));
    }
    assert(interleaved(t, s, 6) == interleaved(t, s, 5) + t[5].push(s[5]));
    assert(interleaved(t, s, 5) == interleaved(t, s, 4) + t[4].push(s[4]));
    assert(interleaved(t, s, 4) == interleaved(t, s, 3) + t[3].push(s[3]));
    assert(interleaved(t, s, 3) == interleaved(t, s, 2) + t[2].push(s[2]));
    assert(interleaved(t, s, 2) == interleaved(t, s, 1) + t[1].push(s[1]));
    assert(interleaved(t, s, 1) == interleaved(t, s, 0) + t[0].push(s[0]));
    let head = t[0].push(s[0]) + t[1].push(s[1]) + t[2].push(s[2]) + t[3].push(s[3]) + t[4].push(s[4]) + t[5].push(s[5]);
    assert(interleaved(t, s, 6) =~= head);
    assert(t[5] != "has"@) by {
        assert(t[5][0] == 'f');
    }
    assert(!begins_with(t[3], "Notice("@)) by {
        assert("Notice("@.len() == 7 && t[3].len() == 4);
    }
    assert(weechat::reading(t, s) == weechat::Reading::Found(TypeView::Disconnect, None));
    let out = (t[0] + " "@ + t[1]) + "\t--\tirc: disconnected from server\n"@;
    assert(out =~= head + rest.push('\n'));
}

/// A notice in the WeeChat dialect is written back as it was read: a
/// line of the form `date time<tab>--<tab>Notice(name): text` with a line
/// feed at its end and a time that the calendar writes as it stands in the
/// line. The second word of the text is not `has`.
#[verifier::rlimit(80)]
pub proof fn law_weechat_notice_is_written_back(context: ContextView, line: Seq<char>)
    requires
        line.len() > 0,
        line.last() == '\n',
        cuts(line).len() >= 5,
        cuts(line)[0] == ' ',
        cuts(line)[1] == '\t',
        cuts(line)[2] == '\t',
        cuts(line)[3] == ' ',
        weechat::at(pieces(line), 5) != "has"@,
        pieces(line)[2] == "--"@,
        pieces(line)[3] == "Notice("@ + weechat::notice_sender(pieces(line)[3]) + "):"@,
        rendered(
            weechat::line_time(context, pieces(line)[0], pieces(line)[1]),
            context.timezone_out,
            weechat::time_pattern(),
        ) == Ok::<Seq<char>, ErrorView>(pieces(line)[0] + " "@ + pieces(line)[1]),
    ensures
        weechat::decoded_line(context, line) matches Some(Ok(event)) && event.ty is Notice
            && weechat::encoded_event(context, event) == Ok::<Seq<char>, ErrorView>(line),
{
    let t = pieces(line);
    let s = cuts(line);
    assert(closed(line) == line);
    law_tokens_give_the_line_back(line);
    law_line_is_head_and_rest(line, 4);
    reveal_strlit("\t--\tNotice(");
    assert("\t--\tNotice("@ =~= seq!['\t', '-', '-', '\t', 'N', 'o', 't', 'i', 'c', 'e', '(']);
    reveal_strlit("): ");
    assert("): "@ =~= seq![')', ':', ' ']);
    reveal_strlit("--");
    assert("--"@ =~= seq!['-', '-']);
    reveal_strlit("Notice(");
    assert("Notice("@ =~= seq!['N', 'o', 't', 'i', 'c', 'e', '(']);
    reveal_strlit("):");
    assert("):"@ =~= seq![')', ':']);
    reveal_strlit("\t");
    assert("\t"@ =~= seq!['\t']);
    reveal_strlit("\n");
    assert("\n"@ =~= seq!['\n']);
    reveal_strlit(" ");
    assert(" "@ =~= seq![' ']);
    let rest = rejoined(t.skip(4), s.skip(4));
    assert(interleaved(t, s, 4) == interleaved(t, s, 3) + t[3].push(s[3]));
    assert(interleaved(t, s, 3) == interleaved(t, s, 2) + t[2].push(s[2]));
    assert(interleaved(t, s, 2) == interleaved(t, s, 1) + t[1].push(s[1]));
    assert(interleaved(t, s, 1) == interleaved(t, s, 0) + t[0].push(s[0]));
    let head = t[0].push(s[0]) + t[1].push(s[1]) + t[2].push(s[2]) + t[3].push(s[3]);
    assert(interleaved(t, s, 4) =~= head);
    assert(begins_with(t[3], "Notice("@)) by {
        assert(t[3].subrange(0, 7) =~= "Notice("@);
    }
    assert(weechat::reading(t, s) == weechat::Reading::Found(TypeView::Notice { from: weechat::notice_sender(t[3]), content: rest }, None));
    let out = (t[0] + " "@ + t[1]) + "\t--\tNotice("@ + weechat::notice_sender(t[3]) + "): "@ + rest + "\n"@;
    assert(out =~= head + rest.push('\n'));
}

/// Somebody's leaving without a reason, in the WeeChat dialect, is
/// written back as it was read: a line of the form
/// `date time<tab><--<tab>name (mask) has left channel` with a line feed
/// at its end and a time that the calendar writes as it stands in the
/// line.
#[verifier::rlimit(80)]
pub proof fn law_weechat_part_without_reason_is_written_back(context: ContextView, line: Seq<char>)
    requires
        line.len() > 0,
        line.last() == '\n',
        cuts(line).len() == 8,
        cuts(line)[0] == ' ',
        cuts(line)[1] == '\t',
        cuts(line)[2] == '\t',
        cuts(line)[3] == ' ',
        cuts(line)[4] == ' ',
        cuts(line)[5] == ' ',
        cuts(line)[6] == ' ',
        pieces(line)[2] == "<--"@,
        pieces(line)[5] == "has"@,
        pieces(line)[6] == "left"@,
        energymech::fenced(pieces(line)[4], '(', ')'),
        pieces(line)[4].len() >= 2,
        rendered(
            weechat::line_time(context, pieces(line)[0], pieces(line)[1]),
            context.timezone_out,
            weechat::time_pattern(),
        ) == Ok::<Seq<char>, ErrorView>(pieces(line)[0] + " "@ + pieces(line)[1]),
    ensures
        weechat::decoded_line(context, line) matches Some(Ok(event)) && event.ty is Part
            && weechat::encoded_event(context, event) == Ok::<Seq<char>, ErrorView>(line),
{
    let t = pieces(line);
    let s = cuts(line);
    assert(closed(line) == line);
    law_tokens_give_the_line_back(line);
    law_line_is_head_and_rest(line, 7);
    reveal_strlit("\t<--\t");
    assert("\t<--\t"@ =~= seq!['\t', '<', '-', '-', '\t']);
    reveal_strlit(" (");
    assert(" ("@ =~= seq![' ', '(']);
    reveal_strlit(") has left ");
    assert(") has left "@ =~= seq![')', ' ', 'h', 'a', 's', ' ', 'l', 'e', 'f', 't', ' ']);
    reveal_strlit("<--");
    assert("<--"@ =~= seq!['<', '-', '-']);
    reveal_strlit("has");
    assert("has"@ =~= seq!['h', 'a', 's']);
    reveal_strlit("left");
    assert("left"@ =~= seq!['l', 'e', 'f', 't']);
    reveal_strlit("joined");
    assert("joined"@ =~= seq!['j', 'o', 'i', 'n', 'e', 'd']);
    reveal_strlit("\t");
    assert("\t"@ =~= seq!['\t']);
    reveal_strlit("\n");
    assert("\n"@ =~= seq!['\n']);
    reveal_strlit(" ");
    assert(" "@ =~= seq![' ']);
    let rest = rejoined(t.skip(7), s.skip(7));
    assert(rest =~= t[7]) by {
        let rt = t.skip(7);
        let rs = s.skip(7);
        assert(shorter(rt.len(), rs.len()) == 1);
        assert(interleaved(rt, rs, 1) == interleaved(rt, rs, 0) + rt[0].push(rs[0]));
        assert(interleaved(rt, rs, 1) =~= t[7].push(s[7]));
    }
    assert(interleaved(t, s, 7) == interleaved(t, s, 6) + t[6].push(s[6]));
    assert(interleaved(t, s, 6) == interleaved(t, s, 5) + t[5].push(s[5]));
    assert(interleaved(t, s, 5) == interleaved(t, s, 4) + t[4].push(s[4]));
    assert(interleaved(t, s, 4) == interleaved(t, s, 3) + t[3].push(s[3]));
    assert(interleaved(t, s, 3) == interleaved(t, s, 2) + t[2].push(s[2]));
    assert(interleaved(t, s, 2) == interleaved(t, s, 1) + t[1].push(s[1]));
    assert(interleaved(t, s, 1) == interleaved(t, s, 0) + t[0].push(s[0]));
    let head = t[0].push(s[0]) + t[1].push(s[1]) + t[2].push(s[2]) + t[3].push(s[3]) + t[4].push(s[4]) + t[5].push(s[5]) + t[6].push(s[6]);
    assert(interleaved(t, s, 7) =~= head);
    assert(t[6] != "joined"@) by {
        assert(t[6][0] == 'l');
    }
    assert(t[4] =~= seq!['('] + inner(t[4]) + seq![')']);
    assert(inner(rejoined(t.skip(8), s.skip(8))) =~= Seq::<char>::empty()) by {
        assert(shorter(t.skip(8).len(), s.skip(8).len()) == 0);
    }
    assert(weechat::reason_suffix(Some(Seq::<char>::empty())) =~= Seq::<char>::empty());
    assert(weechat::reading(t, s) == weechat::Reading::Found(TypeView::Part { nick: t[3], mask: Some(inner(t[4])), reason: Some(Seq::<char>::empty()) }, Some(t[7])));
    let out = (t[0] + " "@ + t[1]) + "\t<--\t"@ + t[3] + " ("@ + inner(t[4]) + ") has left "@ + t[7] + weechat::reason_suffix(Some(Seq::<char>::empty())) + "\n"@;
    assert(out =~= head + rest.push('\n'));
}

/// Somebody's quitting without a reason, in the WeeChat dialect, is
/// written back as it was read: a line of the form
/// `date time<tab><--<tab>name (mask) has quit` with a line feed at its
/// end and a time that the calendar writes as it stands in the line.
#[verifier::rlimit(80)]
pub proof fn law_weechat_quit_without_reason_is_written_back(context: ContextView, line: Seq<char>)
    requires
        line.len() > 0,
        line.last() == '\n',
        cuts(line).len() == 7,
        cuts(line)[0] == ' ',
        cuts(line)[1] == '\t',
        cuts(line)[2] == '\t',
        cuts(line)[3] == ' ',
        cuts(line)[4] == ' ',
        cuts(line)[5] == ' ',
        pieces(line)[2] == "<--"@,
        pieces(line)[5] == "has"@,
        pieces(line)[6] == "quit"@,
        energymech::fenced(pieces(line)[4], '(', ')'),
        pieces(line)[4].len() >= 2,
        rendered(
            weechat::line_time(context, pieces(line)[0], pieces(line)[1]),
            context.timezone_out,
            weechat::time_pattern(),
        ) == Ok::<Seq<char>, ErrorView>(pieces(line)[0] + " "@ + pieces(line)[1]),
    ensures
        weechat::decoded_line(context, line) matches Some(Ok(event)) && event.ty is Quit
            && weechat::encoded_event(context, event) == Ok::<Seq<char>, ErrorView>(line),
{
    let t = pieces(line);
    let s = cuts(line);
    assert(closed(line) == line);
    law_tokens_give_the_line_back(line);
    law_line_is_head_and_rest(line, 6);
    reveal_strlit("\t<--\t");
    assert("\t<--\t"@ =~= seq!['\t', '<', '-', '-', '\t']);
    reveal_strlit(" (");
    assert(" ("@ =~= seq![' ', '(']);
    reveal_strlit(") has quit");
    assert(") has quit"@ =~= seq![')', ' ', 'h', 'a', 's', ' ', 'q', 'u', 'i', 't']);
    reveal_strlit("<--");
    assert("<--"@ =~= seq!['<', '-', '-']);
    reveal_strlit("has");
    assert("has"@ =~= seq!['h', 'a', 's']);
    reveal_strlit("quit");
    assert("quit"@ =~= seq!['q', 'u', 'i', 't']);
    reveal_strlit("joined");
    assert("joined"@ =~= seq!['j', 'o', 'i', 'n', 'e', 'd']);
    reveal_strlit("left");
    assert("left"@ =~= seq!['l', 'e', 'f', 't']);
    reveal_strlit("\t");
    assert("\t"@ =~= seq!['\t']);
    reveal_strlit("\n");
    assert("\n"@ =~= seq!['\n']);
    reveal_strlit(" ");
    assert(" "@ =~= seq![' ']);
    let rest = rejoined(t.skip(6), s.skip(6));
    assert(rest =~= t[6]) by {
        let rt = t.skip(6);
        let rs = s.skip(6);
        assert(shorter(rt.len(), rs.len()) == 1);
        assert(interleaved(rt, rs, 1) == interleaved(rt, rs, 0) + rt[0].push(rs[0]));
        assert(interleaved(rt, rs, 1) =~= t[6].push(s[6]));
    }
    assert(interleaved(t, s, 6) == interleaved(t, s, 5) + t[5].push(s[5]));
    assert(interleaved(t, s, 5) == interleaved(t, s, 4) + t[4].push(s[4]));
    assert(interleaved(t, s, 4) == interleaved(t, s, 3) + t[3].push(s[3]));
    assert(interleaved(t, s, 3) == interleaved(t, s, 2) + t[2].push(s[2]));
    assert(interleaved(t, s, 2) == interleaved(t, s, 1) + t[1].push(s[1]));
    assert(interleaved(t, s, 1) == interleaved(t, s, 0) + t[0].push(s[0]));
    let head = t[0].push(s[0]) + t[1].push(s[1]) + t[2].push(s[2]) + t[3].push(s[3]) + t[4].push(s[4]) + t[5].push(s[5]);
    assert(interleaved(t, s, 6) =~= head);
    assert(t[6] != "joined"@ && t[6] != "left"@) by {
        assert(t[6][0] == 'q');
    }
    assert(t[4] =~= seq!['('] + inner(t[4]) + seq![')']);
    assert(inner(rejoined(t.skip(7), s.skip(7))) =~= Seq::<char>::empty()) by {
        assert(shorter(t.skip(7).len(), s.skip(7).len()) == 0);
    }
    assert(weechat::reason_suffix(Some(Seq::<char>::empty())) =~= Seq::<char>::empty());
    assert(weechat::reading(t, s) == weechat::Reading::Found(TypeView::Quit { nick: t[3], mask: Some(inner(t[4])), reason: Some(Seq::<char>::empty()) }, None));
    let out = (t[0] + " "@ + t[1]) + "\t<--\t"@ + t[3] + " ("@ + inner(t[4]) + ") has quit"@ + weechat::reason_suffix(Some(Seq::<char>::empty())) + "\n"@;
    assert(out =~= head + rest.push('\n'));
}

/// A kick in the energymech dialect is written back as it was read: a
/// line of the form `[time] *** name was kicked by kicker (message)` with
/// a line feed at its end, single blanks between its first seven tokens,
/// and a time that the calendar writes as it stands in the line.
#[verifier::rlimit(80)]
pub proof fn law_energymech_kick_is_written_back(context: ContextView, line: Seq<char>, time: Seq<char>)
    requires
        line.len() > 0,
        line.last() == '\n',
        cuts(line).len() >= 8,
        cuts(line)[0] == ' ',
        cuts(line)[1] == ' ',
        cuts(line)[2] == ' ',
        cuts(line)[3] == ' ',
        cuts(line)[4] == ' ',
        cuts(line)[5] == ' ',
        cuts(line)[6] == ' ',
        pieces(line)[1] == "***"@,
        pieces(line)[3] == "was"@,
        pieces(line)[4] == "kicked"@,
        pieces(line)[5] == "by"@,
        energymech::fenced(rejoined(pieces(line).skip(7), cuts(line).skip(7)), '(', ')'),
        rejoined(pieces(line).skip(7), cuts(line).skip(7)).len() >= 2,
        pieces(line)[0] == "["@ + time + "]"@,
        rendered(
            energymech::line_time(context, pieces(line)[0]),
            context.timezone_out,
            energymech::time_pattern(),
        ) == Ok::<Seq<char>, ErrorView>(time),
    ensures
        energymech::decoded_line(context, line) matches Some(event) && event.ty is Kick
            && energymech::encoded_event(context, event) == Ok::<Seq<char>, ErrorView>(line),
{
    let t = pieces(line);
    let s = cuts(line);
    assert(closed(line) == line);
    law_tokens_give_the_line_back(line);
    law_line_is_head_and_rest(line, 7);
    reveal_strlit("] *** ");
    assert("] *** "@ =~= seq![']', ' ', '*', '*', '*', ' ']);
    reveal_strlit(" was kicked by ");
    assert(" was kicked by "@ =~= seq![' ', 'w', 'a', 's', ' ', 'k', 'i', 'c', 'k', 'e', 'd', ' ', 'b', 'y', ' ']);
    reveal_strlit(" (");
    assert(" ("@ =~= seq![' ', '(']);
    reveal_strlit(")\n");
    assert(")\n"@ =~= seq![')', '\n']);
    reveal_strlit("was");
    assert("was"@ =~= seq!['w', 'a', 's']);
    reveal_strlit("kicked");
    assert("kicked"@ =~= seq!['k', 'i', 'c', 'k', 'e', 'd']);
    reveal_strlit("by");
    assert("by"@ =~= seq!['b', 'y']);
    reveal_strlit("is");
    assert("is"@ =~= seq!['i', 's']);
    reveal_strlit("[");
    assert("["@ =~= seq!['[']);
    reveal_strlit("]");
    assert("]"@ =~= seq![']']);
    reveal_strlit("*");
    assert("*"@ =~= seq!['*']);
    reveal_strlit("***");
    assert("***"@ =~= seq!['*', '*', '*']);
    reveal_strlit("\n");
    assert("\n"@ =~= seq!['\n']);
    reveal_strlit(" ");
    assert(" "@ =~= seq![' ']);
    let rest = rejoined(t.skip(7), s.skip(7));
    assert(interleaved(t, s, 7) == interleaved(t, s, 6) + t[6].push(s[6]));
    assert(interleaved(t, s, 6) == interleaved(t, s, 5) + t[5].push(s[5]));
    assert(interleaved(t, s, 5) == interleaved(t, s, 4) + t[4].push(s[4]));
    assert(interleaved(t, s, 4) == interleaved(t, s, 3) + t[3].push(s[3]));
    assert(interleaved(t, s, 3) == interleaved(t, s, 2) + t[2].push(s[2]));
    assert(interleaved(t, s, 2) == interleaved(t, s, 1) + t[1].push(s[1]));
    assert(interleaved(t, s, 1) == interleaved(t, s, 0) + t[0].push(s[0]));
    let head = t[0].push(s[0]) + t[1].push(s[1]) + t[2].push(s[2]) + t[3].push(s[3]) + t[4].push(s[4]) + t[5].push(s[5]) + t[6].push(s[6]);
    assert(interleaved(t, s, 7) =~= head);
    assert(t[0] =~= seq!['['] + time + seq![']']);
    assert(t[1] != "*"@);
    assert(t[3] != "is"@) by {
        assert(t[3][0] == 'w');
    }
    assert(rest =~= seq!['('] + inner(rest) + seq![')']);
    assert(energymech::kind(t, s) == Some(TypeView::Kick { kicked_nick: t[2], kicking_nick: Some(t[6]), kick_message: Some(inner(rest)) }));
    let out = "["@ + time + "] *** "@ + t[2] + " was kicked by "@ + t[6] + " ("@ + inner(rest) + ")\n"@;
    assert(out =~= head + rest.push('\n'));
}

/// A change of nick in the WeeChat dialect is written back as it was
/// read: a line of the form
/// `date time<tab>--<tab>old is now known as new` with a line feed at its
/// end, an old nick that does not begin like a notice, and a time that the
/// calendar writes as it stands in the line.
#[verifier::rlimit(80)]
pub proof fn law_weechat_nick_is_written_back(context: ContextView, line: Seq<char>)
    requires
        line.len() > 0,
        line.last() == '\n',
        cuts(line).len() == 9,
        cuts(line)[0] == ' ',
        cuts(line)[1] == '\t',
        cuts(line)[2] == '\t',
        cuts(line)[3] == ' ',
        cuts(line)[4] == ' ',
        cuts(line)[5] == ' ',
        cuts(line)[6] == ' ',
        cuts(line)[7] == ' ',
        pieces(line)[2] == "--"@,
        pieces(line)[4] == "is"@,
        pieces(line)[5] == "now"@,
        pieces(line)[6] == "known"@,
        pieces(line)[7] == "as"@,
        !begins_with(pieces(line)[3], "Notice("@),
        rendered(
            weechat::line_time(context, pieces(line)[0], pieces(line)[1]),
            context.timezone_out,
            weechat::time_pattern(),
        ) == Ok::<Seq<char>, ErrorView>(pieces(line)[0] + " "@ + pieces(line)[1]),
    ensures
        weechat::decoded_line(context, line) matches Some(Ok(event)) && event.ty is Nick
            && weechat::encoded_event(context, event) == Ok::<Seq<char>, ErrorView>(line),
{
    let t = pieces(line);
    let s = cuts(line);
    assert(closed(line) == line);
    law_tokens_give_the_line_back(line);
    law_line_is_head_and_rest(line, 8);
    reveal_strlit("\t--\t");
    assert("\t--\t"@ =~= seq!['\t', '-', '-', '\t']);
    reveal_strlit(" is now known as ");
    assert(" is now known as "@ =~= seq![' ', 'i', 's', ' ', 'n', 'o', 'w', ' ', 'k', 'n', 'o', 'w', 'n', ' ', 'a', 's', ' ']);
    reveal_strlit("--");
    assert("--"@ =~= seq!['-', '-']);
    reveal_strlit("is");
    assert("is"@ =~= seq!['i', 's']);
    reveal_strlit("now");
    assert("now"@ =~= seq!['n', 'o', 'w']);
    reveal_strlit("known");
    assert("known"@ =~= seq!['k', 'n', 'o', 'w', 'n']);
    reveal_strlit("as");
    assert("as"@ =~= seq!['a', 's']);
    reveal_strlit("has");
    assert("has"@ =~= seq!['h', 'a', 's']);
    reveal_strlit("disconnected");
    assert("disconnected"@ =~= seq!['d', 'i', 's', 'c', 'o', 'n', 'n', 'e', 'c', 't', 'e', 'd']);
    reveal_strlit("\t");
    assert("\t"@ =~= seq!['\t']);
    reveal_strlit("\n");
    assert("\n"@ =~= seq!['\n']);
    reveal_strlit(" ");
    assert(" "@ =~= seq![' ']);
    let rest = rejoined(t.skip(8), s.skip(8));
    assert(rest =~= t[8]) by {
        let rt = t.skip(8);
        let rs = s.skip(8);
        assert(shorter(rt.len(), rs.len()) == 1);
        assert(interleaved(rt, rs, 1) == interleaved(rt, rs, 0) + rt[0].push(rs[0]));
        assert(interleaved(rt, rs, 1) =~= t[8].push(s[8]));
    }
    assert(interleaved(t, s, 8) == interleaved(t, s, 7) + t[7].push(s[7]));
    assert(interleaved(t, s, 7) == interleaved(t, s, 6) + t[6].push(s[6]));
    assert(interleaved(t, s, 6) == interleaved(t, s, 5) + t[5].push(s[5]));
    assert(interleaved(t, s, 5) == interleaved(t, s, 4) + t[4].push(s[4]));
    assert(interleaved(t, s, 4) == interleaved(t, s, 3) + t[3].push(s[3]));
    assert(interleaved(t, s, 3) == interleaved(t, s, 2) + t[2].push(s[2]));
    assert(interleaved(t, s, 2) == interleaved(t, s, 1) + t[1].push(s[1]));
    assert(interleaved(t, s, 1) == interleaved(t, s, 0) + t[0].push(s[0]));
    let head = t[0].push(s[0]) + t[1].push(s[1]) + t[2].push(s[2]) + t[3].push(s[3]) + t[4].push(s[4]) + t[5].push(s[5]) + t[6].push(s[6]) + t[7].push(s[7]);
    assert(interleaved(t, s, 8) =~= head);
    assert(t[5] != "has"@) by {
        assert(t[5][0] == 'n');
    }
    assert(t[4] != "disconnected"@) by {
        assert(t[4][0] == 'i');
    }
    assert(weechat::reading(t, s) == weechat::Reading::Found(TypeView::Nick { old_nick: t[3], new_nick: t[8] }, None));
    let out = (t[0] + " "@ + t[1]) + "\t--\t"@ + t[3] + " is now known as "@ + t[8] + "\n"@;
    assert(out =~= head + rest.push('\n'));
}

} // verus!
