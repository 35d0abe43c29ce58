use vstd::prelude::*;

use crate::effect::{Effect, EffectView};

verus! {

/// A stateful unit that receives events, decides, acts and emits effects.
///
/// Each implementation describes itself through the spec functions below:
/// `state` is what `current` returns, `delivered` the effects handed to the
/// host so far, and `receives` / `emits` relate a unit before a call to the
/// unit after it.
pub trait Gadget: Sized {
    type State;

    type Incoming;

    spec fn state(&self) -> Self::State;

    spec fn delivered(&self) -> Seq<EffectView>;

    /// The unit after its state is replaced by `state`.
    spec fn updated(&self, state: Self::State) -> Self;

    /// Whether `after` is what `receive(data)` makes of `self`.
    spec fn receives(&self, data: Self::Incoming, after: Self) -> bool;

    /// Whether `after` is what `emit(effect)` makes of `self`.
    spec fn emits(&self, effect: EffectView, after: Self) -> bool;

    /// Replacing the state sets it and delivers nothing.
    proof fn lemma_updated(&self, state: Self::State)
        ensures
            self.updated(state).state() == state,
            self.updated(state).delivered() == self.delivered(),
    ;

    /// A copy of the present state; changes nothing.
    fn current(&self) -> (r: Self::State)
        ensures
            r == self.state(),
    ;

    /// Replaces the state unconditionally, without deciding or emitting.
    fn update(&mut self, state: Self::State)
        ensures
            *final(self) == old(self).updated(state),
    ;

    /// Decides on `data`, runs the chosen action if any, and emits its effect.
    fn receive(&mut self, data: Self::Incoming)
        ensures
            old(self).receives(data, *final(self)),
    ;

    /// Delivers `effect` to the host.
    fn emit(&mut self, effect: Effect)
        ensures
            old(self).emits(effect@, *final(self)),
    ;
}

/// Writing back what `current` returned leaves the state as it was.
pub proof fn lemma_update_with_current<G: Gadget>(g: G)
    ensures
        g.updated(g.state()).state() == g.state(),
{
    g.lemma_updated(g.state());
}

} // verus!
