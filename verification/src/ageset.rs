//! A window of recent entries: a queue in order of arrival that can be
//! asked whether it holds an entry with a given key, and that lets its
//! oldest entries go first.
//!
//! Beside the queue stands an index that counts, for every code that a
//! key can have, the entries of that code. An entry whose code the index
//! does not know is new without a look at the queue.

use crate::event::{opt_view, signature_of, Event, Type, TypeView};
use std::collections::{HashMap, VecDeque};
use vstd::prelude::*;

verus! {

/// What can be kept in a window: a value with a key by which it is found
/// again, and a code for the key. Values with the same key have the same
/// code, since the code is one of the key.
pub trait Keyed {
    /// What the value is found by.
    type Key;

    /// The key of the value.
    spec fn key(&self) -> Self::Key;

    /// The code of a key.
    spec fn key_code(key: Self::Key) -> u64;

    /// Whether two values have the same key.
    fn same_key(&self, other: &Self) -> (r: bool)
        ensures
            r == (self.key() == other.key()),
    ;

    /// The code of the value's key.
    fn code(&self) -> (h: u64)
        ensures
            h == Self::key_code(self.key()),
    ;
}

/// An event together with the absolute time it was given on arrival.
#[derive(Clone, Debug, PartialEq, Eq)]
pub struct Aged {
    pub stamp: i64,
    pub event: Event,
}

/// What the window knows of an entry: its stamp and its signature.
pub type Mark = (i64, (TypeView, Option<Seq<char>>));

impl View for Aged {
    type V = Mark;

    open spec fn view(&self) -> Mark {
        (self.stamp, signature_of(self.event@))
    }
}

/// The marks of a sequence of entries.
pub open spec fn marks(entries: Seq<Aged>) -> Seq<Mark> {
    entries.map_values(|a: Aged| a@)
}

/// Some entry of the window has this signature.
pub open spec fn holds(window: Seq<Mark>, signature: (TypeView, Option<Seq<char>>)) -> bool {
    exists|i: int| 0 <= i < window.len() && (#[trigger] window[i]).1 == signature
}

/// Some entry has this key.
pub open spec fn has_key<T: Keyed>(entries: Seq<T>, key: T::Key) -> bool {
    exists|i: int| 0 <= i < entries.len() && (#[trigger] entries[i]).key() == key
}

/// Where every code starts.
pub const SEED: u64 = 14695981039346656037;

/// The code `h` with one more number worked in.
pub open spec fn mixed(h: u64, c: u64) -> u64 {
    h.wrapping_mul(1099511628211).wrapping_add(c)
}

/// The code `h` with the characters of `s` worked in, one by one.
pub open spec fn mixed_chars(h: u64, s: Seq<char>) -> u64
    decreases s.len(),
{
    if s.len() == 0 {
        h
    } else {
        mixed(mixed_chars(h, s.drop_last()), s.last() as u64)
    }
}

/// The code `h` with a text worked in, and a mark for its end.
pub open spec fn mixed_text(h: u64, s: Seq<char>) -> u64 {
    mixed(mixed_chars(h, s), 0x11_0000)
}

/// The code `h` with an optional text worked in.
pub open spec fn mixed_opt(h: u64, s: Option<Seq<char>>) -> u64 {
    match s {
        Some(text) => mixed_text(mixed(h, 1), text),
        None => mixed(h, 0),
    }
}

/// The code of a kind of event with its fields.
pub open spec fn kind_code(ty: TypeView) -> u64 {
    match ty {
        TypeView::Connect => mixed(SEED, 0),
        TypeView::Disconnect => mixed(SEED, 1),
        TypeView::Msg { from, content } => mixed_text(mixed_text(mixed(SEED, 2), from), content),
        TypeView::Action { from, content } => mixed_text(mixed_text(mixed(SEED, 3), from), content),
        TypeView::Join { nick, mask } => mixed_opt(mixed_text(mixed(SEED, 4), nick), mask),
        TypeView::Part { nick, mask, reason } => mixed_opt(mixed_opt(mixed_text(mixed(SEED, 5), nick), mask), reason),
        TypeView::Quit { nick, mask, reason } => mixed_opt(mixed_opt(mixed_text(mixed(SEED, 6), nick), mask), reason),
        TypeView::Nick { old_nick, new_nick } => mixed_text(mixed_text(mixed(SEED, 7), old_nick), new_nick),
        TypeView::Notice { from, content } => mixed_text(mixed_text(mixed(SEED, 8), from), content),
        TypeView::Kick { kicked_nick, kicking_nick, kick_message } => mixed_opt(mixed_opt(mixed_text(mixed(SEED, 9), kicked_nick), kicking_nick), kick_message),
        TypeView::Topic { topic } => mixed_text(mixed(SEED, 10), topic),
        TypeView::TopicChange { nick, new_topic } => mixed_text(mixed_opt(mixed(SEED, 11), nick), new_topic),
        TypeView::Mode { nick, mode, masks } => mixed_text(mixed_text(mixed_opt(mixed(SEED, 12), nick), mode), masks),
    }
}

/// The code of a signature. Equal signatures have equal codes; the
/// converse is not asked for.
#[verifier::opaque]
pub open spec fn code_of(signature: (TypeView, Option<Seq<char>>)) -> u64 {
    mixed_opt(kind_code(signature.0), signature.1)
}

fn mix(h: u64, c: u64) -> (r: u64)
    ensures
        r == mixed(h, c),
{
    h.wrapping_mul(1099511628211).wrapping_add(c)
}

fn mix_text(h: u64, s: &str) -> (r: u64)
    ensures
        r == mixed_text(h, s@),
{
    let mut r = h;
    proof {
        assert(s@.take(0) =~= Seq::empty());
    }
    for c in it: s.chars()
        invariant
            it.seq() == s@,
            r == mixed_chars(h, s@.take(it.index() as int)),
    {
        proof {
            let i = it.index() as int;
            assert(s@.take(i + 1).drop_last() =~= s@.take(i));
        }
        r = mix(r, c as u64);
    }
    proof {
        assert(s@.take(s@.len() as int) =~= s@);
    }
    mix(r, 0x11_0000)
}

fn mix_opt(h: u64, s: &Option<String>) -> (r: u64)
    ensures
        r == mixed_opt(h, opt_view(*s)),
{
    match s {
        Some(text) => mix_text(mix(h, 1), text.as_str()),
        None => mix(h, 0),
    }
}

fn hash_kind(ty: &Type) -> (h: u64)
    ensures
        h == kind_code(ty@),
{
    match ty {
        Type::Connect => mix(SEED, 0),
        Type::Disconnect => mix(SEED, 1),
        Type::Msg { from, content } => mix_text(mix_text(mix(SEED, 2), from.as_str()), content.as_str()),
        Type::Action { from, content } => mix_text(mix_text(mix(SEED, 3), from.as_str()), content.as_str()),
        Type::Join { nick, mask } => mix_opt(mix_text(mix(SEED, 4), nick.as_str()), mask),
        Type::Part { nick, mask, reason } => mix_opt(mix_opt(mix_text(mix(SEED, 5), nick.as_str()), mask), reason),
        Type::Quit { nick, mask, reason } => mix_opt(mix_opt(mix_text(mix(SEED, 6), nick.as_str()), mask), reason),
        Type::Nick { old_nick, new_nick } => mix_text(mix_text(mix(SEED, 7), old_nick.as_str()), new_nick.as_str()),
        Type::Notice { from, content } => mix_text(mix_text(mix(SEED, 8), from.as_str()), content.as_str()),
        Type::Kick { kicked_nick, kicking_nick, kick_message } => mix_opt(mix_opt(mix_text(mix(SEED, 9), kicked_nick.as_str()), kicking_nick), kick_message),
        Type::Topic { topic } => mix_text(mix(SEED, 10), topic.as_str()),
        Type::TopicChange { nick, new_topic } => mix_text(mix_opt(mix(SEED, 11), nick), new_topic.as_str()),
        Type::Mode { nick, mode, masks } => mix_text(mix_text(mix_opt(mix(SEED, 12), nick), mode.as_str()), masks.as_str()),
    }
}


/// The code of the signature of an event.
pub fn hash_signature(event: &Event) -> (h: u64)
    ensures
        h == code_of(signature_of(event@)),
{
    reveal(code_of);
    mix_opt(hash_kind(&event.ty), &event.channel)
}

impl Keyed for Aged {
    type Key = (TypeView, Option<Seq<char>>);

    /// An entry is found by the signature of its event; its stamp is no
    /// part of the key.
    open spec fn key(&self) -> (TypeView, Option<Seq<char>>) {
        signature_of(self.event@)
    }

    open spec fn key_code(key: (TypeView, Option<Seq<char>>)) -> u64 {
        code_of(key)
    }

    fn same_key(&self, other: &Aged) -> (r: bool) {
        self.event.same_signature(&other.event)
    }

    fn code(&self) -> (h: u64) {
        hash_signature(&self.event)
    }
}

/// The code of an entry's key.
pub open spec fn code_at<T: Keyed>(entry: T) -> u64 {
    T::key_code(entry.key())
}

/// The number of entries whose key has the code `code`.
pub open spec fn count_of<T: Keyed>(entries: Seq<T>, code: u64) -> nat
    decreases entries.len(),
{
    if entries.len() == 0 {
        0
    } else if code_at(entries.last()) == code {
        count_of(entries.drop_last(), code) + 1
    } else {
        count_of(entries.drop_last(), code)
    }
}

/// No code is counted more often than there are entries, and a code is
/// counted where an entry has it.
proof fn lemma_count<T: Keyed>(entries: Seq<T>, code: u64)
    ensures
        count_of(entries, code) <= entries.len(),
        count_of(entries, code) == 0 <==> forall|i: int|
            0 <= i < entries.len() ==> code_at(#[trigger] entries[i]) != code,
    decreases entries.len(),
{
    if entries.len() > 0 {
        let rest = entries.drop_last();
        lemma_count(rest, code);
        assert forall|i: int| 0 <= i < rest.len() implies rest[i] == entries[i] by {}
        if count_of(entries, code) == 0 {
            assert forall|i: int| 0 <= i < entries.len() implies code_at(#[trigger] entries[i])
                != code by {
                if i < rest.len() {
                    assert(rest[i] == entries[i]);
                }
            }
        }
    }
}

/// What the first entry adds to the count of its code is gone with it.
proof fn lemma_count_without_first<T: Keyed>(entries: Seq<T>, code: u64)
    requires
        entries.len() > 0,
    ensures
        count_of(entries, code) == count_of(entries.drop_first(), code) + if code_at(entries[0])
            == code {
            1nat
        } else {
            0nat
        },
    decreases entries.len(),
{
    if entries.len() == 1 {
        assert(entries.drop_last() =~= Seq::empty());
        assert(entries.drop_first() =~= Seq::empty());
    } else {
        lemma_count_without_first(entries.drop_last(), code);
        assert(entries.drop_last().drop_first() =~= entries.drop_first().drop_last());
    }
}

/// The index counts exactly the entries: a code that no entry has is not
/// in it, and every other stands with its number.
pub open spec fn in_step<T: Keyed>(index: Map<u64, usize>, entries: Seq<T>) -> bool {
    forall|code: u64|
        if count_of(entries, code) == 0 {
            !(#[trigger] index.contains_key(code))
        } else {
            index.contains_key(code) && index[code] == count_of(entries, code)
        }
}

/// An index in step with the entries is in step with them and one more
/// once the count of the new entry's code has gone up by one.
proof fn lemma_in_step_after_push<T: Keyed>(
    index: Map<u64, usize>,
    entries: Seq<T>,
    entry: T,
    n: usize,
)
    requires
        in_step(index, entries),
        n == count_of(entries, code_at(entry)),
        n < usize::MAX,
    ensures
        in_step(index.insert(code_at(entry), (n + 1) as usize), entries.push(entry)),
{
    let after = entries.push(entry);
    assert(after.drop_last() =~= entries);
    assert forall|code: u64|
        if count_of(after, code) == 0 {
            !(#[trigger] index.insert(code_at(entry), (n + 1) as usize).contains_key(code))
        } else {
            index.insert(code_at(entry), (n + 1) as usize).contains_key(code) && index.insert(
                code_at(entry),
                (n + 1) as usize,
            )[code] == count_of(after, code)
        } by {
        assert(after.last() == entry);
        assert(count_of(after, code) == count_of(entries, code) + if code_at(entry) == code {
            1nat
        } else {
            0nat
        });
        assert(index.contains_key(code) || !index.contains_key(code));
    }
}

/// An index in step with the entries is in step with them without the
/// first once the count of that entry's code has gone down by one, or the
/// code has left the index where the count was one.
proof fn lemma_in_step_after_pop<T: Keyed>(index: Map<u64, usize>, entries: Seq<T>)
    requires
        in_step(index, entries),
        entries.len() > 0,
    ensures
        index.contains_key(code_at(entries[0])),
        index[code_at(entries[0])] >= 1,
        in_step(
            if index[code_at(entries[0])] <= 1 {
                index.remove(code_at(entries[0]))
            } else {
                index.insert(code_at(entries[0]), (index[code_at(entries[0])] - 1) as usize)
            },
            entries.drop_first(),
        ),
{
    let code = code_at(entries[0]);
    let rest = entries.drop_first();
    lemma_count_without_first(entries, code);
    assert(index.contains_key(code) && index[code] == count_of(entries, code));
    if index[code] <= 1 {
        let after = index.remove(code);
        assert forall|c: u64|
            if count_of(rest, c) == 0 {
                !(#[trigger] after.contains_key(c))
            } else {
                after.contains_key(c) && after[c] == count_of(rest, c)
            } by {
            lemma_count_without_first(entries, c);
            assert(index.contains_key(c) || !index.contains_key(c));
        }
    } else {
        let after = index.insert(code, (index[code] - 1) as usize);
        assert forall|c: u64|
            if count_of(rest, c) == 0 {
                !(#[trigger] after.contains_key(c))
            } else {
                after.contains_key(c) && after[c] == count_of(rest, c)
            } by {
            lemma_count_without_first(entries, c);
            assert(index.contains_key(c) || !index.contains_key(c));
        }
    }
}

/// The entries in order of arrival, oldest first, and the index of their
/// codes.
pub struct AgeSet<T> {
    fifo: VecDeque<T>,
    index: HashMap<u64, usize>,
}

impl<T: Keyed> AgeSet<T> {
    /// The entries, oldest first.
    pub closed spec fn entries(&self) -> Seq<T> {
        self.fifo@
    }

    /// The index counts exactly the entries in the queue: a code that no
    /// entry has is not in it, and every other stands with its number.
    pub closed spec fn wf(&self) -> bool {
        in_step(self.index@, self.fifo@)
    }

    /// An empty window.
    pub fn new() -> (s: AgeSet<T>)
        ensures
            s.wf(),
            s.entries() == Seq::<T>::empty(),
    {
        AgeSet { fifo: VecDeque::new(), index: HashMap::new() }
    }

    /// The number of entries.
    pub fn len(&self) -> (n: usize)
        ensures
            n == self.entries().len(),
    {
        self.fifo.len()
    }

    /// Whether the window holds an entry with the same key as `t`.
    pub fn contains(&self, t: &T) -> (r: bool)
        requires
            self.wf(),
        ensures
            r == has_key(self.entries(), t.key()),
    {
        let code = t.code();
        if !self.index.contains_key(&code) {
            proof {
                lemma_count(self.fifo@, code);
            }
            return false;
        }
        let mut i: usize = 0;
        while i < self.fifo.len()
            invariant
                i <= self.fifo@.len(),
                forall|k: int| 0 <= k < i ==> (#[trigger] self.fifo@[k]).key() != t.key(),
            decreases self.fifo@.len() - i,
        {
            if self.fifo[i].same_key(t) {
                return true;
            }
            i += 1;
        }
        false
    }

    /// Lets the oldest entries go for as long as `kill` says so of the
    /// oldest that is left. The first entry that `kill` spares stays, and so
    /// does everything behind it: this is not a filter.
    pub fn prune<F: Fn(&T) -> bool>(&mut self, kill: F)
        requires
            old(self).wf(),
            forall|a: &T| #[trigger] kill.requires((a,)),
        ensures
            final(self).wf(),
            exists|k: int|
                0 <= k <= old(self).entries().len() && #[trigger] old(self).entries().skip(k)
                    == final(self).entries() && cut_at(kill, old(self).entries(), k),
    {
        let ghost before = self.fifo@;
        let ghost mut k: int = 0;
        loop
            invariant
                before == old(self).entries(),
                0 <= k <= before.len(),
                self.fifo@ == before.skip(k),
                self.wf(),
                forall|i: int| 0 <= i < k ==> kill.ensures((&#[trigger] before[i],), true),
                forall|a: &T| #[trigger] kill.requires((a,)),
            ensures
                0 <= k <= before.len(),
                self.fifo@ == before.skip(k),
                self.wf(),
                cut_at(kill, before, k),
            decreases before.len() - k,
        {
            if self.fifo.len() == 0 {
                break ;
            }
            let dead = kill(&self.fifo[0]);
            assert(before.skip(k)[0] == before[k]);
            if !dead {
                break ;
            }
            let ghost window = self.fifo@;
            let gone = self.fifo.pop_front().unwrap();
            let code = gone.code();
            proof {
                assert(before.skip(k).subrange(1, before.len() - k) =~= before.skip(k + 1));
                assert(window[0] == gone);
                assert(self.fifo@ =~= window.drop_first());
                lemma_in_step_after_pop(self.index@, window);
                k = k + 1;
            }
            let n = *self.index.get(&code).unwrap();
            if n <= 1 {
                self.index.remove(&code);
            } else {
                self.index.insert(code, n - 1);
            }
        }
        assert(before.skip(k) == self.entries() && cut_at(kill, before, k));
    }

    /// Puts an entry at the young end of the window.
    pub fn push(&mut self, t: T)
        requires
            old(self).wf(),
        ensures
            final(self).wf(),
            final(self).entries() == old(self).entries().push(t),
    {
        let code = t.code();
        let ghost window = self.fifo@;
        let n = match self.index.get(&code) {
            Some(n) => *n,
            None => 0,
        };
        self.fifo.push_back(t);
        let len = self.fifo.len();
        proof {
            assert(window.len() + 1 == len);
            lemma_count(window, code);
            assert(self.index@.contains_key(code) || !self.index@.contains_key(code));
            assert(n == count_of(window, code));
            lemma_in_step_after_push(self.index@, window, t, n);
        }
        self.index.insert(code, n + 1);
    }
}

/// `kill` said yes of each of the first `k` entries and, if there is a
/// next one, no of that.
pub open spec fn cut_at<T, F: Fn(&T) -> bool>(kill: F, entries: Seq<T>, k: int) -> bool {
    &&& forall|i: int| 0 <= i < k ==> kill.ensures((&#[trigger] entries[i],), true)
    &&& k < entries.len() ==> kill.ensures((&entries[k],), false)
}

} // verus!
