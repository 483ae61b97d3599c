use vstd::prelude::*;

use crate::effects::{Effect, EffectKind, EffectsHolder};
use crate::timer::FiniteRepeatingTimer;
use crate::world::World;

verus! {

/// Dropping one entry keeps the effects unique.
pub proof fn lemma_unique_after_remove(effects: Seq<Effect>, i: int)
    requires
        World::effects_unique(effects),
        0 <= i < effects.len(),
    ensures
        World::effects_unique(effects.remove(i)),
{
    let r = effects.remove(i);
    assert forall|a: int, b: int|
        0 <= a < r.len() && 0 <= b < r.len() && a != b && #[trigger] r[a].holder == #[trigger] r[b].holder
            implies r[a].kind != r[b].kind by {
        let oa = if a < i { a } else { a + 1 };
        let ob = if b < i { b } else { b + 1 };
        assert(r[a] == effects[oa]);
        assert(r[b] == effects[ob]);
    }
}

/// The table invariant survives a change of the effects alone that keeps them well-formed
/// and unique.
proof fn lemma_effects_frame(w0: World, w1: World)
    requires
        w0.wf(),
        w1.fights == w0.fights,
        w1.actors == w0.actors,
        w1.slots == w0.slots,
        w1.abilities == w0.abilities,
        w1.effects_holders == w0.effects_holders,
        forall|e: int| 0 <= e < w1.effects@.len() ==> #[trigger] w1.effect_wf(e),
        World::effects_unique(w1.effects@),
    ensures
        w1.wf(),
{
    assert forall|a: int| 0 <= a < w1.actors@.len() implies #[trigger] w1.actor_wf(a) by {
        assert(w0.actor_wf(a));
    }
    assert forall|s: int| 0 <= s < w1.slots@.len() implies #[trigger] w1.slot_wf(s) by {
        assert(w0.slot_wf(s));
    }
    assert forall|b: int| 0 <= b < w1.abilities@.len() implies #[trigger] w1.ability_wf(b) by {
        assert(w0.ability_wf(b));
    }
    assert forall|h: int| 0 <= h < w1.effects_holders@.len() implies #[trigger] w1.holder_wf(h) by {
        assert(w0.holder_wf(h));
    }
}

impl World {
    /// Effect `e` is the instance of `kind` on `target`.
    pub open spec fn effect_of(self, target: int, kind: EffectKind, e: int) -> bool {
        &&& 0 <= e < self.effects@.len()
        &&& self.actors@[target].effects_holder == Some(self.effects@[e].holder)
        &&& self.effects@[e].kind == kind
    }

    pub open spec fn has_effect(self, target: int, kind: EffectKind) -> bool {
        exists|e: int| self.effect_of(target, kind, e)
    }

    /// The target that effect `e` is on.
    pub open spec fn target_of(self, e: int) -> int {
        self.effects_holders@[self.effects@[e].holder as int].holding_entity as int
    }

    /// A target holds at most one instance of each kind.
    pub proof fn lemma_effect_instance_unique(self, target: int, kind: EffectKind, e1: int, e2: int)
        requires
            self.wf(),
            0 <= target < self.actors@.len(),
            self.effect_of(target, kind, e1),
            self.effect_of(target, kind, e2),
        ensures
            e1 == e2,
    {
        if e1 != e2 {
            assert(self.effects@[e1].holder == self.effects@[e2].holder);
        }
    }

    /// The index of the instance of `kind` on `target`, if it has one.
    pub fn get_unique_effect(&self, target: usize, kind: EffectKind) -> (r: Option<usize>)
        requires
            self.wf(),
            target < self.actors@.len(),
        ensures
            match r {
                Some(e) => self.effect_of(target as int, kind, e as int),
                None => !self.has_effect(target as int, kind),
            },
    {
        let holder = match self.actors[target].effects_holder {
            Some(h) => h,
            None => {
                return None;
            },
        };
        let mut i: usize = 0;
        while i < self.effects.len()
            invariant
                0 <= i <= self.effects@.len(),
                self.actors@[target as int].effects_holder == Some(holder),
                forall|e: int| 0 <= e < i ==> !self.effect_of(target as int, kind, e),
            decreases self.effects@.len() - i,
        {
            if self.effects[i].holder == holder && self.effects[i].kind == kind {
                return Some(i);
            }
            i = i + 1;
        }
        None
    }

    /// The target that effect `effect_e` is on.
    pub fn get_target_of_effect(&self, effect_e: usize) -> (r: usize)
        requires
            self.wf(),
            effect_e < self.effects@.len(),
        ensures
            r == self.target_of(effect_e as int),
            r < self.actors@.len(),
            self.actors@[r as int].effects_holder == Some(self.effects@[effect_e as int].holder),
    {
        proof {
            assert(self.effect_wf(effect_e as int));
            assert(self.holder_wf(self.effects@[effect_e as int].holder as int));
        }
        self.effects_holders[self.effects[effect_e].holder].holding_entity
    }

    /// The record that gathers the effects of `target`, made on first use.
    fn ensure_effects_holder(&mut self, target: usize) -> (r: usize)
        requires
            old(self).wf(),
            target < old(self).actors@.len(),
        ensures
            final(self).wf(),
            final(self).actors@[target as int].effects_holder == Some(r),
            old(self).actors@[target as int].effects_holder is Some ==> final(self).actors == old(self).actors
                && final(self).effects_holders == old(self).effects_holders,
            final(self).actors@.len() == old(self).actors@.len(),
            forall|a: int|
                0 <= a < old(self).actors@.len() ==> {
                    let x = #[trigger] final(self).actors@[a];
                    let y = old(self).actors@[a];
                    &&& x.fight == y.fight
                    &&& x.faction == y.faction
                    &&& x.health == y.health
                    &&& a != target ==> x.effects_holder == y.effects_holder
                },
            forall|a: int, k: EffectKind, e: int|
                0 <= a < old(self).actors@.len() ==> (#[trigger] final(self).effect_of(a, k, e)
                    <==> old(self).effect_of(a, k, e)),
            final(self).fights == old(self).fights,
            final(self).slots == old(self).slots,
            final(self).abilities == old(self).abilities,
            final(self).effects == old(self).effects,
    {
        match self.actors[target].effects_holder {
            Some(h) => h,
            None => {
                let h = self.effects_holders.len();
                self.effects_holders.push(EffectsHolder { holding_entity: target });
                let mut actor = self.actors[target];
                actor.effects_holder = Some(h);
                self.actors.set(target, actor);
                proof {
                    let w0 = *old(self);
                    assert forall|a: int| 0 <= a < self.actors@.len() implies #[trigger] self.actor_wf(a) by {
                        assert(w0.actor_wf(a));
                    }
                    assert forall|s: int| 0 <= s < self.slots@.len() implies #[trigger] self.slot_wf(s) by {
                        assert(w0.slot_wf(s));
                    }
                    assert forall|b: int| 0 <= b < self.abilities@.len() implies #[trigger] self.ability_wf(b) by {
                        assert(w0.ability_wf(b));
                    }
                    assert forall|g: int| 0 <= g < self.effects_holders@.len() implies #[trigger] self.holder_wf(g) by {
                        if g < h {
                            assert(w0.holder_wf(g));
                            let t = w0.effects_holders@[g].holding_entity as int;
                            assert(t != target);
                        }
                    }
                    assert forall|e: int| 0 <= e < self.effects@.len() implies #[trigger] self.effect_wf(e) by {
                        assert(w0.effect_wf(e));
                    }
                    assert forall|a: int, k: EffectKind, e: int|
                        0 <= a < w0.actors@.len() implies (#[trigger] self.effect_of(a, k, e)
                            <==> w0.effect_of(a, k, e)) by {
                        if a == target && 0 <= e < self.effects@.len() {
                            assert(w0.effect_wf(e));
                        }
                    }
                }
                h
            },
        }
    }

    /// Puts a fresh instance of `kind`, with timer `timer`, on `target`, replacing the one it
    /// had: afterwards `target` holds exactly one instance of `kind`, this one.
    pub fn spawn_or_replace_unique_effect(&mut self, target: usize, kind: EffectKind, timer: FiniteRepeatingTimer)
        requires
            old(self).wf(),
            target < old(self).actors@.len(),
            timer.wf(),
        ensures
            final(self).wf(),
            exists|e: int| final(self).effect_of(target as int, kind, e) && final(self).effects@[e].timer == timer,
            forall|e: int| #[trigger]
                final(self).effect_of(target as int, kind, e) ==> final(self).effects@[e].timer == timer,
            forall|a: int, k: EffectKind, e: int|
                0 <= a < old(self).actors@.len() && !(a == target && k == kind) ==> (
                #[trigger] final(self).effect_of(a, k, e) <==> old(self).effect_of(a, k, e)),
            forall|e: int|
                0 <= e < old(self).effects@.len() && !old(self).effect_of(target as int, kind, e)
                    ==> #[trigger] final(self).effects@[e] == old(self).effects@[e],
            final(self).effects@.len() == old(self).effects@.len() + if old(self).has_effect(target as int, kind) {
                0int
            } else {
                1int
            },
            final(self).actors@.len() == old(self).actors@.len(),
            forall|a: int|
                0 <= a < old(self).actors@.len() ==> {
                    let x = #[trigger] final(self).actors@[a];
                    let y = old(self).actors@[a];
                    &&& x.fight == y.fight
                    &&& x.faction == y.faction
                    &&& x.health == y.health
                },
            final(self).fights == old(self).fights,
            final(self).slots == old(self).slots,
            final(self).abilities == old(self).abilities,
    {
        let holder = self.ensure_effects_holder(target);
        let ghost mid = *self;
        let ghost last: int;
        let effect = Effect { holder, kind, timer };
        match self.get_unique_effect(target, kind) {
            Some(e) => {
                self.effects.set(e, effect);
                proof {
                    assert forall|i: int, j: int|
                        0 <= i < self.effects@.len() && 0 <= j < self.effects@.len() && i != j
                            && #[trigger] self.effects@[i].holder == #[trigger] self.effects@[j].holder
                            implies self.effects@[i].kind != self.effects@[j].kind by {
                        if i == e as int {
                            assert(mid.effects@[j].holder == mid.effects@[e as int].holder);
                        } else if j == e as int {
                            assert(mid.effects@[i].holder == mid.effects@[e as int].holder);
                        }
                    }
                    assert forall|x: int| 0 <= x < self.effects@.len() implies #[trigger] self.effect_wf(x) by {
                        assert(mid.effect_wf(x));
                        assert(mid.effect_wf(e as int));
                    }
                    lemma_effects_frame(mid, *self);
                    assert(self.effect_of(target as int, kind, e as int));
                    last = e as int;
                    assert forall|e2: int|
                        0 <= e2 < old(self).effects@.len() && !old(self).effect_of(target as int, kind, e2)
                            implies #[trigger] self.effects@[e2] == old(self).effects@[e2] by {
                        if e2 == e as int {
                            assert(mid.effect_of(target as int, kind, e2));
                        }
                    }
                    assert(old(self).has_effect(target as int, kind)) by {
                        assert(mid.effect_of(target as int, kind, e as int));
                    }
                    assert forall|a: int, k: EffectKind, x: int|
                        0 <= a < old(self).actors@.len() && !(a == target && k == kind) implies (
                        #[trigger] self.effect_of(a, k, x) <==> old(self).effect_of(a, k, x)) by {
                        assert(mid.effect_of(a, k, x) <==> old(self).effect_of(a, k, x));
                        if x == e as int && a != target {
                            if mid.actors@[a].effects_holder == Some(holder) {
                                assert(mid.actor_wf(a));
                                assert(mid.actor_wf(target as int));
                            }
                        }
                    }
                }
            },
            None => {
                self.effects.push(effect);
                proof {
                    let n = mid.effects@.len() as int;
                    assert forall|i: int, j: int|
                        0 <= i < self.effects@.len() && 0 <= j < self.effects@.len() && i != j
                            && #[trigger] self.effects@[i].holder == #[trigger] self.effects@[j].holder
                            implies self.effects@[i].kind != self.effects@[j].kind by {
                        if i == n {
                            assert(!mid.effect_of(target as int, kind, j));
                        } else if j == n {
                            assert(!mid.effect_of(target as int, kind, i));
                        }
                    }
                    assert forall|x: int| 0 <= x < self.effects@.len() implies #[trigger] self.effect_wf(x) by {
                        if x < n {
                            assert(mid.effect_wf(x));
                        }
                        assert(mid.actor_wf(target as int));
                    }
                    lemma_effects_frame(mid, *self);
                    assert(self.effect_of(target as int, kind, n));
                    last = n;
                    assert(!old(self).has_effect(target as int, kind)) by {
                        if old(self).has_effect(target as int, kind) {
                            let x = choose|x: int| old(self).effect_of(target as int, kind, x);
                            assert(mid.effect_of(target as int, kind, x));
                        }
                    }
                    assert forall|a: int, k: EffectKind, x: int|
                        0 <= a < old(self).actors@.len() && !(a == target && k == kind) implies (
                        #[trigger] self.effect_of(a, k, x) <==> old(self).effect_of(a, k, x)) by {
                        assert(mid.effect_of(a, k, x) <==> old(self).effect_of(a, k, x));
                        if x == n && a != target {
                            if self.actors@[a].effects_holder == Some(holder) {
                                assert(mid.actor_wf(a));
                                assert(mid.actor_wf(target as int));
                            }
                        }
                    }
                }
            },
        }
        proof {
            assert forall|e: int| #[trigger] self.effect_of(target as int, kind, e) implies self.effects@[e].timer
                == timer by {
                self.lemma_effect_instance_unique(target as int, kind, e, last);
            }
        }
    }

    /// Removes the instance of `kind` from `target`; returns whether there was one.
    pub fn remove_unique_effect(&mut self, target: usize, kind: EffectKind) -> (r: bool)
        requires
            old(self).wf(),
            target < old(self).actors@.len(),
        ensures
            final(self).wf(),
            r == old(self).has_effect(target as int, kind),
            !final(self).has_effect(target as int, kind),
            r ==> exists|e: int|
                old(self).effect_of(target as int, kind, e) && final(self).effects@ == old(self).effects@.remove(e),
            !r ==> final(self).effects == old(self).effects,
            final(self).fights == old(self).fights,
            final(self).actors == old(self).actors,
            final(self).slots == old(self).slots,
            final(self).abilities == old(self).abilities,
            final(self).effects_holders == old(self).effects_holders,
    {
        match self.get_unique_effect(target, kind) {
            Some(e) => {
                self.effects.remove(e);
                proof {
                    let w0 = *old(self);
                    lemma_unique_after_remove(w0.effects@, e as int);
                    assert forall|x: int| 0 <= x < self.effects@.len() implies #[trigger] self.effect_wf(x) by {
                        if x < e {
                            assert(w0.effect_wf(x));
                        } else {
                            assert(w0.effect_wf(x + 1));
                        }
                    }
                    lemma_effects_frame(w0, *self);
                    if self.has_effect(target as int, kind) {
                        let x = choose|x: int| self.effect_of(target as int, kind, x);
                        if x < e {
                            w0.lemma_effect_instance_unique(target as int, kind, x, e as int);
                        } else {
                            assert(w0.effect_of(target as int, kind, x + 1));
                            w0.lemma_effect_instance_unique(target as int, kind, x + 1, e as int);
                        }
                    }
                    assert(w0.effect_of(target as int, kind, e as int));
                }
                true
            },
            None => false,
        }
    }
}

} // verus!
