use vstd::prelude::*;

verus! {

/// An observable outcome of processing one incoming event.
#[derive(Debug)]
pub enum Effect {
    /// The state changed; carries a textual form of the new value.
    Changed(String),
    /// The input was accepted but nothing changed.
    Noop,
    /// An outcome defined by an extension.
    Custom(String, String),
}

impl Clone for Effect {
    fn clone(&self) -> (r: Self)
        ensures
            r == *self,
    {
        match self {
            Effect::Changed(s) => Effect::Changed(s.clone()),
            Effect::Noop => Effect::Noop,
            Effect::Custom(k, v) => Effect::Custom(k.clone(), v.clone()),
        }
    }
}

/// The content of an [`Effect`], with text as character sequences.
pub enum EffectView {
    Changed(Seq<char>),
    Noop,
    Custom(Seq<char>, Seq<char>),
}

impl View for Effect {
    type V = EffectView;

    open spec fn view(&self) -> EffectView {
        match self {
            Effect::Changed(s) => EffectView::Changed(s@),
            Effect::Noop => EffectView::Noop,
            Effect::Custom(k, v) => EffectView::Custom(k@, v@),
        }
    }
}

/// The contents of a sequence of effects.
pub open spec fn effect_views(s: Seq<Effect>) -> Seq<EffectView> {
    s.map_values(|e: Effect| e@)
}

/// What the decision step chose: run the named action, or do nothing.
#[derive(Debug)]
pub enum ConsiderResult {
    Action(String),
    Nothing,
}

impl View for ConsiderResult {
    type V = Option<Seq<char>>;

    open spec fn view(&self) -> Option<Seq<char>> {
        match self {
            ConsiderResult::Action(name) => Some(name@),
            ConsiderResult::Nothing => None,
        }
    }
}

} // verus!
