//! A reusable unit driven by a decision step, a table of named actions and an
//! ordered list of extensions.
use vstd::prelude::*;

use crate::effect::{effect_views, ConsiderResult, Effect, EffectView};
use crate::extension::{all_observe, emit_stage, receive_stage, SemanticExtension};
use crate::gadget::Gadget;
use crate::text::same_text;

verus! {

/// The decision step: which action, if any, to run on `data` in `state`.
pub trait Consider<S, I> {
    spec fn decide(&self, state: S, data: I) -> Option<Seq<char>>;

    fn consider(&self, state: &S, data: &I) -> (r: ConsiderResult)
        ensures
            r@ == self.decide(*state, *data),
    ;
}

/// A named action: it changes the state and returns the effect of the change.
pub trait Action<S, I> {
    spec fn next(&self, state: S, data: I) -> S;

    spec fn outcome(&self, state: S, data: I) -> EffectView;

    fn act(&self, state: &mut S, data: &I) -> (e: Effect)
        ensures
            *final(state) == self.next(*old(state), *data),
            e@ == self.outcome(*old(state), *data),
    ;
}

/// The action that `name` refers to in `table`: the last one registered under
/// that name.
pub open spec fn named_action<A>(table: Seq<(Seq<char>, A)>, name: Seq<char>) -> Option<A>
    decreases table.len(),
{
    if table.len() == 0 {
        None
    } else if table.last().0 == name {
        Some(table.last().1)
    } else {
        named_action(table.drop_last(), name)
    }
}

/// A unit built from a decision step `C`, actions `A` and extensions `E` over
/// states `S` and incoming data `I`.
pub struct BasicGadget<S, I, C, A, E> {
    state: S,
    consider: C,
    actions: Vec<(String, A)>,
    extensions: Vec<E>,
    outbox: Vec<Effect>,
    incoming: core::marker::PhantomData<I>,
}

impl<S: Copy, I, C: Consider<S, I>, A: Action<S, I>, E: SemanticExtension<I>> BasicGadget<S, I, C, A, E> {
    pub closed spec fn decider(&self) -> C {
        self.consider
    }

    /// The action table, by name, in registration order.
    pub closed spec fn table(&self) -> Seq<(Seq<char>, A)> {
        self.actions@.map_values(|p: (String, A)| (p.0@, p.1))
    }

    /// The extensions, in registration order.
    pub closed spec fn exts(&self) -> Seq<E> {
        self.extensions@
    }

    pub fn new(initial: S, consider: C, actions: Vec<(String, A)>) -> (r: Self)
        ensures
            r.state() == initial,
            r.decider() == consider,
            r.table() == actions@.map_values(|p: (String, A)| (p.0@, p.1)),
            r.exts() == Seq::<E>::empty(),
            r.delivered() == Seq::<EffectView>::empty(),
    {
        let r = BasicGadget {
            state: initial,
            consider,
            actions,
            extensions: Vec::new(),
            outbox: Vec::new(),
            incoming: core::marker::PhantomData,
        };
        assert(r.delivered() =~= Seq::<EffectView>::empty());
        r
    }

    /// Appends `ext` to the extensions; it runs after those added before it.
    pub fn add_extension(&mut self, ext: E)
        ensures
            final(self).exts() == old(self).exts().push(ext),
            final(self).state() == old(self).state(),
            final(self).decider() == old(self).decider(),
            final(self).table() == old(self).table(),
            final(self).delivered() == old(self).delivered(),
    {
        self.extensions.push(ext);
    }

    /// The extensions, in registration order.
    pub fn extensions(&self) -> (r: &Vec<E>)
        ensures
            r@ == self.exts(),
    {
        &self.extensions
    }

    /// The effects delivered so far, oldest first.
    pub fn emitted(&self) -> (r: &Vec<Effect>)
        ensures
            effect_views(r@) == self.delivered(),
    {
        &self.outbox
    }

    /// Index of the last action registered under `name`.
    fn find_action(&self, name: &String) -> (r: Option<usize>)
        ensures
            match r {
                Some(j) => j < self.table().len() && named_action(self.table(), name@) == Some(
                    self.table()[j as int].1,
                ),
                None => named_action(self.table(), name@) == None::<A>,
            },
    {
        let mut k: usize = self.actions.len();
        assert(self.table().take(k as int) =~= self.table());
        while k > 0
            invariant
                k <= self.actions@.len(),
                named_action(self.table(), name@) == named_action(
                    self.table().take(k as int),
                    name@,
                ),
            decreases k,
        {
            let ghost t = self.table().take(k as int);
            assert(t.drop_last() =~= self.table().take(k - 1));
            assert(t.last() == (self.actions@[k - 1].0@, self.actions@[k - 1].1));
            if same_text(self.actions[k - 1].0.as_str(), name.as_str()) {
                return Some(k - 1);
            }
            k = k - 1;
        }
        None
    }
}

impl<S: Copy, I, C: Consider<S, I>, A: Action<S, I>, E: SemanticExtension<I>> Gadget for BasicGadget<
    S,
    I,
    C,
    A,
    E,
> {
    type State = S;

    type Incoming = I;

    closed spec fn state(&self) -> S {
        self.state
    }

    closed spec fn delivered(&self) -> Seq<EffectView> {
        effect_views(self.outbox@)
    }

    closed spec fn updated(&self, state: S) -> Self {
        BasicGadget { state, ..*self }
    }

    /// The data goes through every extension in order; the decision step then
    /// sees it with the present state. A named action that exists runs, and
    /// its effect is emitted; otherwise nothing changes.
    open spec fn receives(&self, data: I, after: Self) -> bool {
        let d = receive_stage(self.exts(), data, self.exts().len() as int);
        match self.decider().decide(self.state(), d) {
            Some(name) => match named_action(self.table(), name) {
                Some(a) => self.updated(a.next(self.state(), d)).emits(
                    a.outcome(self.state(), d),
                    after,
                ),
                None => after == *self,
            },
            None => after == *self,
        }
    }

    /// The effect goes through every extension in registration order, and
    /// what the last one hands on is delivered.
    open spec fn emits(&self, effect: EffectView, after: Self) -> bool {
        &&& after.state() == self.state()
        &&& after.decider() == self.decider()
        &&& after.table() == self.table()
        &&& all_observe(self.exts(), effect, after.exts())
        &&& after.delivered() == self.delivered().push(
            emit_stage(self.exts(), effect, self.exts().len() as int),
        )
    }

    proof fn lemma_updated(&self, state: S) {
    }

    fn current(&self) -> (r: S) {
        self.state
    }

    fn update(&mut self, state: S) {
        self.state = state;
    }

    fn receive(&mut self, data: I) {
        let n = self.extensions.len();
        let mut d = data;
        let mut i: usize = 0;
        while i < n
            invariant
                i <= n,
                n == self.extensions@.len(),
                *self == *old(self),
                d == receive_stage(self.exts(), data, i as int),
            decreases n - i,
        {
            d = self.extensions[i].wrap_receive(d);
            i = i + 1;
        }
        let decision = self.consider.consider(&self.state, &d);
        match decision {
            ConsiderResult::Action(name) => {
                match self.find_action(&name) {
                    Some(j) => {
                        let ghost before = *self;
                        let effect = self.actions[j].1.act(&mut self.state, &d);
                        assert(*self == before.updated(self.state));
                        self.emit(effect);
                    },
                    None => {},
                }
            },
            ConsiderResult::Nothing => {},
        }
    }

    fn emit(&mut self, effect: Effect) {
        let mut exts: Vec<E> = Vec::new();
        core::mem::swap(&mut exts, &mut self.extensions);
        let ghost before = exts@;
        let n = exts.len();
        let mut done: Vec<E> = Vec::new();
        let mut e = effect;
        let mut i: usize = 0;
        while i < n
            invariant
                i <= n,
                n == before.len(),
                exts@ == before.subrange(i as int, n as int),
                done@.len() == i,
                e@ == emit_stage(before, effect@, i as int),
                forall|j: int|
                    0 <= j < i ==> #[trigger] before[j].observes(
                        emit_stage(before, effect@, j),
                        done@[j],
                    ),
            decreases n - i,
        {
            let mut ext = exts.remove(0);
            assert(ext == before[i as int]);
            e = ext.wrap_emit(e);
            done.push(ext);
            assert(exts@ =~= before.subrange(i + 1, n as int));
            i = i + 1;
        }
        self.extensions = done;
        let ghost prior = self.outbox@;
        self.outbox.push(e);
        assert(effect_views(self.outbox@) =~= effect_views(prior).push(e@));
    }
}

} // verus!
