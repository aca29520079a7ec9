//! A value that is computed when it is first asked for, and kept.

use vstd::prelude::*;

verus! {

/// What a lazy value is at a given moment.
pub enum State<V, F> {
    /// The value is there.
    Evaluated(V),
    /// The value is being computed. Nobody outside ever sees this state.
    Evaluating,
    /// The value is still to be computed, by calling this.
    Unevaluated(F),
}

/// A value, or the way to get it.
pub struct Lazy<V, F> {
    state: State<V, F>,
}

impl<V, F: FnOnce() -> V> Lazy<V, F> {
    /// What the lazy value is now.
    pub closed spec fn state(&self) -> State<V, F> {
        self.state
    }

    /// The lazy value can give a value: it has one, or it has a way to
    /// get one that may be called.
    pub open spec fn ready_to_force(&self) -> bool {
        match self.state() {
            State::Evaluated(_) => true,
            State::Evaluating => false,
            State::Unevaluated(f) => f.requires(()),
        }
    }

    /// `v` is the value that the lazy value gives: the one it has, or one
    /// that its way to get one may return.
    pub open spec fn gives(&self, v: V) -> bool {
        match self.state() {
            State::Evaluated(have) => v == have,
            State::Evaluating => false,
            State::Unevaluated(f) => f.ensures((), v),
        }
    }

    /// A value still to be computed by `f`.
    pub fn new(f: F) -> (l: Lazy<V, F>)
        ensures
            l.state() == State::<V, F>::Unevaluated(f),
    {
        Lazy { state: State::Unevaluated(f) }
    }

    /// A value that is there from the start.
    pub fn ready(v: V) -> (l: Lazy<V, F>)
        ensures
            l.state() == State::<V, F>::Evaluated(v),
    {
        Lazy { state: State::Evaluated(v) }
    }

    /// Computes the value now if it is not there yet.
    pub fn force(&mut self)
        requires
            old(self).ready_to_force(),
        ensures
            final(self).state() is Evaluated,
            old(self).gives(final(self).state()->Evaluated_0),
    {
        let mut taken = State::Evaluating;
        std::mem::swap(&mut self.state, &mut taken);
        match taken {
            State::Unevaluated(f) => {
                self.state = State::Evaluated(f());
            },
            other => {
                self.state = other;
            },
        }
    }

    /// The value, computed now if it was not there yet.
    pub fn unwrap(self) -> (v: V)
        requires
            self.ready_to_force(),
        ensures
            self.gives(v),
    {
        match self.state {
            State::Unevaluated(f) => f(),
            State::Evaluated(v) => v,
            State::Evaluating => vstd::pervasive::unreached(),
        }
    }

    /// A look at the value, which is computed now if it was not there
    /// yet, and kept.
    pub fn value(&mut self) -> (v: &V)
        requires
            old(self).ready_to_force(),
        ensures
            old(self).gives(*v),
            final(self).state() == State::<V, F>::Evaluated(*v),
    {
        self.force();
        match &self.state {
            State::Evaluated(v) => v,
            _ => vstd::pervasive::unreached(),
        }
    }
}

} // verus!
