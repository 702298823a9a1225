//! Effects that one player puts on the other. An effect lasts until its
//! holder's next lock: the lock marks it expired, and the sweep that follows
//! removes it.

use vstd::prelude::*;

verus! {

/// An effect on a player. `Blind` hides part of the holder's board; `Heavy`
/// makes the holder's piece sink after each sideways move.
#[derive(Debug, Clone, Copy, PartialEq, Eq, Structural)]
pub enum Effect {
    Blind { expired: bool },
    Heavy { expired: bool },
}

impl Effect {
    /// Whether the effect was marked expired.
    pub open spec fn expired(self) -> bool {
        match self {
            Effect::Blind { expired } => expired,
            Effect::Heavy { expired } => expired,
        }
    }

    /// The same effect, marked expired.
    pub open spec fn lapsed(self) -> Effect {
        match self {
            Effect::Blind { .. } => Effect::Blind { expired: true },
            Effect::Heavy { .. } => Effect::Heavy { expired: true },
        }
    }

    /// A fresh blind effect.
    pub fn blind() -> (e: Effect)
        ensures
            e == (Effect::Blind { expired: false }),
    {
        Effect::Blind { expired: false }
    }

    /// A fresh heavy effect.
    pub fn heavy() -> (e: Effect)
        ensures
            e == (Effect::Heavy { expired: false }),
    {
        Effect::Heavy { expired: false }
    }

    /// Whether this is a blind effect.
    pub fn is_blind(&self) -> (b: bool)
        ensures
            b == (*self is Blind),
    {
        match self {
            Effect::Blind { .. } => true,
            Effect::Heavy { .. } => false,
        }
    }

    /// Whether this effect adds forced descent after a sideways move.
    pub fn adds_heavy_on_horizontal(&self) -> (b: bool)
        ensures
            b == (*self is Heavy),
    {
        match self {
            Effect::Blind { .. } => false,
            Effect::Heavy { .. } => true,
        }
    }

    /// The holder locked a piece: the effect is marked expired.
    pub fn on_drop(&mut self)
        ensures
            *final(self) == old(self).lapsed(),
            final(self).expired(),
    {
        match self {
            Effect::Blind { expired } => {
                *expired = true;
            },
            Effect::Heavy { expired } => {
                *expired = true;
            },
        }
    }

    /// Whether the effect was marked expired.
    pub fn is_expired(&self) -> (b: bool)
        ensures
            b == self.expired(),
    {
        match self {
            Effect::Blind { expired } => *expired,
            Effect::Heavy { expired } => *expired,
        }
    }
}

/// The effects, each marked expired.
pub open spec fn all_lapsed(effects: Seq<Effect>) -> Seq<Effect> {
    Seq::new(effects.len(), |i: int| effects[i].lapsed())
}

/// The effects that are not expired, in their order.
pub open spec fn unexpired(effects: Seq<Effect>) -> Seq<Effect> {
    effects.filter(|e: Effect| !e.expired())
}

/// The effects that are left after a lock: each is marked expired, then the
/// expired ones are removed.
pub open spec fn swept(effects: Seq<Effect>) -> Seq<Effect> {
    unexpired(all_lapsed(effects))
}

/// Of effects that are all expired none is left.
pub proof fn lemma_unexpired_of_expired(effects: Seq<Effect>)
    requires
        forall|i: int| 0 <= i < effects.len() ==> (#[trigger] effects[i]).expired(),
    ensures
        unexpired(effects) == Seq::<Effect>::empty(),
    decreases effects.len(),
{
    reveal(Seq::filter);
    if effects.len() > 0 {
        lemma_unexpired_of_expired(effects.drop_last());
    }
}

/// A lock ends every effect: the sweep leaves none.
pub proof fn lemma_swept_is_empty(effects: Seq<Effect>)
    ensures
        swept(effects) == Seq::<Effect>::empty(),
{
    lemma_unexpired_of_expired(all_lapsed(effects));
}

/// Sweeping twice is sweeping once: the second sweep finds nothing more to
/// remove.
pub proof fn lemma_swept_idempotent(effects: Seq<Effect>)
    ensures
        swept(swept(effects)) == swept(effects),
{
    lemma_swept_is_empty(effects);
    lemma_swept_is_empty(swept(effects));
}

} // verus!
