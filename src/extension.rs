//! Decorators that see, and may rewrite, what a unit emits and receives.
use vstd::prelude::*;

use crate::effect::{effect_views, Effect, EffectView};

verus! {

/// A decorator on a unit's effects and incoming data.
///
/// `rewrite` is what `wrap_emit` hands on, `observes` relates the extension
/// before and after it sees an effect, and `rewrite_data` what `wrap_receive`
/// hands on. An extension that changes nothing states the identity there.
pub trait SemanticExtension<I>: Sized {
    spec fn rewrite(&self, effect: EffectView) -> EffectView;

    spec fn observes(&self, effect: EffectView, after: Self) -> bool;

    spec fn rewrite_data(&self, data: I) -> I;

    fn wrap_emit(&mut self, effect: Effect) -> (r: Effect)
        ensures
            r@ == old(self).rewrite(effect@),
            old(self).observes(effect@, *final(self)),
    ;

    fn wrap_receive(&self, data: I) -> (r: I)
        ensures
            r == self.rewrite_data(data),
    ;
}

/// The effect after the first `k` extensions of `exts` have rewritten `e`.
pub open spec fn emit_stage<I, E: SemanticExtension<I>>(
    exts: Seq<E>,
    e: EffectView,
    k: int,
) -> EffectView
    decreases k,
{
    if k <= 0 {
        e
    } else {
        exts[k - 1].rewrite(emit_stage(exts, e, k - 1))
    }
}

/// Whether `after` holds the extensions `exts` after each has seen what the
/// ones before it handed on.
pub open spec fn all_observe<I, E: SemanticExtension<I>>(
    exts: Seq<E>,
    e: EffectView,
    after: Seq<E>,
) -> bool {
    &&& after.len() == exts.len()
    &&& forall|i: int| 0 <= i < exts.len() ==> #[trigger] exts[i].observes(emit_stage(exts, e, i), after[i])
}

/// The data after the first `k` extensions of `exts` have rewritten `d`.
pub open spec fn receive_stage<I, E: SemanticExtension<I>>(exts: Seq<E>, d: I, k: int) -> I
    decreases k,
{
    if k <= 0 {
        d
    } else {
        exts[k - 1].rewrite_data(receive_stage(exts, d, k - 1))
    }
}

/// With extensions registered in order, the one at `k` observes the effect as
/// every earlier extension rewrote it, first to last; the third one observes
/// `exts[1].rewrite(exts[0].rewrite(e))`.
pub proof fn lemma_extension_order<I, E: SemanticExtension<I>>(
    exts: Seq<E>,
    e: EffectView,
    after: Seq<E>,
)
    requires
        all_observe(exts, e, after),
        exts.len() >= 3,
    ensures
        exts[2].observes(exts[1].rewrite(exts[0].rewrite(e)), after[2]),
{
    assert(emit_stage(exts, e, 0) == e);
    assert(emit_stage(exts, e, 1) == exts[0].rewrite(e));
    assert(emit_stage(exts, e, 2) == exts[1].rewrite(exts[0].rewrite(e)));
    assert(exts[2].observes(emit_stage(exts, e, 2), after[2]));
}

/// A revocable subscription to a [`TappingExtension`].
pub struct TapHandle {
    id: u64,
}

impl TapHandle {
    pub closed spec fn id(&self) -> u64 {
        self.id
    }
}

struct Tap {
    id: u64,
    seen: Vec<Effect>,
}

/// An extension that hands every effect, unchanged, to each subscriber in the
/// order they subscribed; a revoked subscriber sees no later effects.
pub struct TappingExtension {
    taps: Vec<Tap>,
    next_id: u64,
}

impl TappingExtension {
    /// Each subscriber's id with the effects it has seen, in subscription order.
    pub closed spec fn subscribers(&self) -> Seq<(u64, Seq<EffectView>)> {
        self.taps@.map_values(|t: Tap| (t.id, effect_views(t.seen@)))
    }

    /// The id the next subscription gets.
    pub closed spec fn next_id(&self) -> u64 {
        self.next_id
    }

    /// Subscriber ids increase in subscription order and stay below `next_id`.
    pub open spec fn wf(&self) -> bool {
        &&& forall|i: int, j: int|
            0 <= i < j < self.subscribers().len() ==> self.subscribers()[i].0
                < self.subscribers()[j].0
        &&& forall|i: int|
            0 <= i < self.subscribers().len() ==> self.subscribers()[i].0 < self.next_id()
    }

    pub fn new() -> (r: Self)
        ensures
            r.wf(),
            r.subscribers() == Seq::<(u64, Seq<EffectView>)>::empty(),
            r.next_id() == 0,
    {
        let r = TappingExtension { taps: Vec::new(), next_id: 0 };
        assert(r.subscribers() =~= Seq::<(u64, Seq<EffectView>)>::empty());
        r
    }

    /// Adds a subscriber that sees every later effect.
    pub fn tap(&mut self) -> (h: TapHandle)
        requires
            old(self).wf(),
            old(self).next_id() < u64::MAX,
        ensures
            final(self).wf(),
            h.id() == old(self).next_id(),
            final(self).next_id() == old(self).next_id() + 1,
            final(self).subscribers() == old(self).subscribers().push((h.id(), Seq::empty())),
    {
        let id = self.next_id;
        let ghost before = self.subscribers();
        let t = Tap { id, seen: Vec::new() };
        assert(effect_views(t.seen@) =~= Seq::<EffectView>::empty());
        self.taps.push(t);
        self.next_id = id + 1;
        assert(self.subscribers() =~= before.push((id, Seq::empty())));
        TapHandle { id }
    }

    /// Revokes the subscription of `h`; other subscribers keep their order.
    pub fn untap(&mut self, h: &TapHandle)
        requires
            old(self).wf(),
        ensures
            final(self).wf(),
            final(self).next_id() == old(self).next_id(),
            forall|i: int|
                0 <= i < old(self).subscribers().len() && old(self).subscribers()[i].0 == h.id()
                    ==> final(self).subscribers() == old(self).subscribers().remove(i),
            (forall|i: int|
                0 <= i < old(self).subscribers().len() ==> old(self).subscribers()[i].0 != h.id())
                ==> final(self).subscribers() == old(self).subscribers(),
    {
        let ghost before = self.subscribers();
        let mut i: usize = 0;
        while i < self.taps.len()
            invariant
                i <= self.taps@.len(),
                self.subscribers() == before,
                before == old(self).subscribers(),
                self.next_id == old(self).next_id,
                self.wf(),
                forall|j: int| 0 <= j < i ==> before[j].0 != h.id(),
            decreases self.taps@.len() - i,
        {
            assert(before[i as int].0 == self.taps@[i as int].id);
            if self.taps[i].id == h.id {
                self.taps.remove(i);
                assert(self.subscribers() =~= before.remove(i as int));
                assert forall|a: int, b: int|
                    0 <= a < b < self.subscribers().len() implies self.subscribers()[a].0
                    < self.subscribers()[b].0 by {
                    let a0 = if a < i { a } else { a + 1 };
                    let b0 = if b < i { b } else { b + 1 };
                    assert(self.subscribers()[a] == before[a0]);
                    assert(self.subscribers()[b] == before[b0]);
                }
                assert forall|a: int| 0 <= a < self.subscribers().len() implies self.subscribers()[a].0
                    < self.next_id() by {
                    let a0 = if a < i { a } else { a + 1 };
                    assert(self.subscribers()[a] == before[a0]);
                }
                assert(before[i as int].0 == h.id());
                assert forall|k: int|
                    0 <= k < before.len() && before[k].0 == h.id() implies k == i by {
                    if k < i {
                        assert(before[k].0 < before[i as int].0);
                    } else if k > i {
                        assert(before[i as int].0 < before[k].0);
                    }
                }
                assert(before == old(self).subscribers());
                assert(old(self).subscribers()[i as int].0 == h.id());
                assert forall|k: int|
                    0 <= k < old(self).subscribers().len() && old(self).subscribers()[k].0 == h.id()
                        implies self.subscribers() == old(self).subscribers().remove(k) by {
                    assert(before[k].0 == h.id());
                }
                return;
            }
            i = i + 1;
        }
    }

    /// The effects the subscriber of `h` has seen, if it is subscribed.
    pub fn observed(&self, h: &TapHandle) -> (r: Option<&Vec<Effect>>)
        ensures
            match r {
                Some(v) => exists|i: int|
                    0 <= i < self.subscribers().len() && self.subscribers()[i] == (
                    h.id(),
                    effect_views(v@),
                ),
                None => forall|i: int|
                    0 <= i < self.subscribers().len() ==> self.subscribers()[i].0 != h.id(),
            },
    {
        let mut i: usize = 0;
        while i < self.taps.len()
            invariant
                i <= self.taps@.len(),
                forall|j: int| 0 <= j < i ==> self.subscribers()[j].0 != h.id(),
            decreases self.taps@.len() - i,
        {
            assert(self.subscribers()[i as int].0 == self.taps@[i as int].id);
            if self.taps[i].id == h.id {
                return Some(&self.taps[i].seen);
            }
            i = i + 1;
        }
        None
    }
}


impl<I> SemanticExtension<I> for TappingExtension {
    open spec fn rewrite(&self, effect: EffectView) -> EffectView {
        effect
    }

    /// Each subscriber has the effect appended; nothing else changes.
    open spec fn observes(&self, effect: EffectView, after: Self) -> bool {
        &&& after.next_id() == self.next_id()
        &&& after.subscribers().len() == self.subscribers().len()
        &&& forall|i: int|
            0 <= i < self.subscribers().len() ==> #[trigger] after.subscribers()[i] == (
                self.subscribers()[i].0,
                self.subscribers()[i].1.push(effect),
            )
    }

    open spec fn rewrite_data(&self, data: I) -> I {
        data
    }

    fn wrap_emit(&mut self, effect: Effect) -> (r: Effect) {
        let ghost before = self.subscribers();
        let mut taps: Vec<Tap> = Vec::new();
        core::mem::swap(&mut taps, &mut self.taps);
        let n = taps.len();
        let mut done: Vec<Tap> = Vec::new();
        let mut i: usize = 0;
        while i < n
            invariant
                i <= n,
                n == before.len(),
                taps@.len() == n - i,
                done@.len() == i,
                forall|j: int|
                    0 <= j < i ==> (#[trigger] done@[j]).id == before[j].0 && effect_views(
                        done@[j].seen@,
                    ) == before[j].1.push(effect@),
                forall|j: int|
                    0 <= j < n - i ==> (#[trigger] taps@[j]).id == before[j + i].0
                        && effect_views(taps@[j].seen@) == before[j + i].1,
            decreases n - i,
        {
            let mut t = taps.remove(0);
            assert(t.id == before[i as int].0);
            let ghost old_seen = t.seen@;
            t.seen.push(effect.clone());
            assert(effect_views(t.seen@) =~= effect_views(old_seen).push(effect@));
            done.push(t);
            i = i + 1;
        }
        self.taps = done;
        assert(self.subscribers().len() == before.len());
        effect
    }

    fn wrap_receive(&self, data: I) -> (r: I) {
        data
    }
}

} // verus!
