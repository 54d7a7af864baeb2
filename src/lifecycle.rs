use vstd::prelude::*;

verus! {

/// Where an entity stands in its deferred destruction. An entity that is
/// removed no longer exists in the world.
#[derive(Clone, Copy, Debug, PartialEq, Eq, Structural)]
pub enum LifeState {
    Active,
    MarkedForDeath,
    MarkedForDespawn,
}

/// The state after a request to mark an entity for death: only an active
/// entity changes, so marking twice is the same as marking once.
pub open spec fn marked(s: LifeState) -> LifeState {
    if s == LifeState::Active {
        LifeState::MarkedForDeath
    } else {
        s
    }
}

/// Marks an entity for death; a no-op on one that is already marked.
pub fn mark_for_death(s: &mut LifeState)
    ensures
        *final(s) == marked(*old(s)),
{
    if *s == LifeState::Active {
        *s = LifeState::MarkedForDeath;
    }
}

/// Marking is idempotent.
pub proof fn lemma_mark_idempotent(s: LifeState)
    ensures
        marked(marked(s)) == marked(s),
{
}

} // verus!
