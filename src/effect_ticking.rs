use vstd::prelude::*;

use crate::effects::{damage_per_tick, DamageInstance, Effect};
use crate::world::World;

verus! {

impl World {
    /// The fight of the target of effect `e` is paused.
    pub open spec fn effect_paused(self, e: int) -> bool {
        self.fight_paused(self.fight_of(self.target_of(e)))
    }

    /// The ticks that effect `e` yields during a tick of `delta` nanoseconds.
    pub open spec fn effect_fresh_ticks(self, e: int, delta: int) -> int {
        if self.effect_paused(e) {
            0
        } else {
            self.effects@[e].timer.fresh_ticks_spec(delta)
        }
    }

    /// Effect `e` after a tick of `delta` nanoseconds.
    pub open spec fn effect_after(self, e: int, delta: int) -> Effect {
        if self.effect_paused(e) {
            self.effects@[e]
        } else {
            Effect { timer: self.effects@[e].timer.ticked(delta), ..self.effects@[e] }
        }
    }

    /// Effect `e` is still live after a tick of `delta` nanoseconds.
    pub open spec fn effect_survives(self, e: int, delta: int) -> bool {
        self.effect_paused(e) || self.effect_after(e, delta).timer.remaining_ticks_spec() > 0
    }

    /// The live effects after a tick of `delta` nanoseconds, among the first `n`, in order.
    pub open spec fn effects_after(self, n: int, delta: int) -> Seq<Effect>
        decreases n,
    {
        if n <= 0 {
            seq![]
        } else if self.effect_survives(n - 1, delta) {
            self.effects_after(n - 1, delta).push(self.effect_after(n - 1, delta))
        } else {
            self.effects_after(n - 1, delta)
        }
    }

    /// One hit per fresh tick of effect `e`, on its target.
    pub open spec fn effect_damage(self, e: int, delta: int) -> Seq<DamageInstance> {
        Seq::new(
            self.effect_fresh_ticks(e, delta) as nat,
            |k: int|
                DamageInstance {
                    source: None,
                    target: self.target_of(e) as usize,
                    amount: damage_per_tick(self.effects@[e].kind),
                },
        )
    }

    /// The hits of a tick of `delta` nanoseconds from the first `n` effects, in order.
    pub open spec fn effects_damage(self, n: int, delta: int) -> Seq<DamageInstance>
        decreases n,
    {
        if n <= 0 {
            seq![]
        } else {
            self.effects_damage(n - 1, delta) + self.effect_damage(n - 1, delta)
        }
    }

    /// Advances every effect whose target's fight is unpaused by `delta` nanoseconds: each
    /// fresh tick deals the effect's damage to its target once, and an effect with no ticks
    /// left is removed.
    pub fn tick_effects(&mut self, delta: u64) -> (damage: Vec<DamageInstance>)
        requires
            old(self).wf(),
        ensures
            final(self).wf(),
            damage@ == old(self).effects_damage(old(self).effects@.len() as int, delta as int),
            final(self).effects@ == old(self).effects_after(old(self).effects@.len() as int, delta as int),
            final(self).fights == old(self).fights,
            final(self).actors == old(self).actors,
            final(self).slots == old(self).slots,
            final(self).abilities == old(self).abilities,
            final(self).effects_holders == old(self).effects_holders,
    {
        let ghost w0 = *self;
        let n = self.effects.len();
        let mut kept: Vec<Effect> = Vec::new();
        let mut damage: Vec<DamageInstance> = Vec::new();
        let ghost mut origin: Seq<int> = seq![];
        let mut i: usize = 0;
        while i < n
            invariant
                0 <= i <= n,
                n == w0.effects@.len(),
                *self == w0,
                w0.wf(),
                kept@ == w0.effects_after(i as int, delta as int),
                damage@ == w0.effects_damage(i as int, delta as int),
                origin.len() == kept@.len(),
                forall|k: int| 0 <= k < origin.len() ==> 0 <= #[trigger] origin[k] < i,
                forall|k1: int, k2: int| 0 <= k1 < k2 < origin.len() ==> origin[k1] < origin[k2],
                forall|k: int|
                    0 <= k < kept@.len() ==> (#[trigger] kept@[k]).holder == w0.effects@[origin[k]].holder
                        && kept@[k].kind == w0.effects@[origin[k]].kind && kept@[k].timer.wf(),
            decreases n - i,
        {
            let mut effect = self.effects[i];
            proof {
                assert(self.effect_wf(i as int));
            }
            let target = self.get_target_of_effect(i);
            let fight_e = self.get_fight_of_entity(target);
            if self.is_fight_paused(fight_e) {
                kept.push(effect);
                proof {
                    origin = origin.push(i as int);
                }
            } else {
                let fresh = effect.timer.tick_get_fresh_ticks(delta);
                let amount = effect.kind.dmg_per_tick();
                let ghost before = damage@;
                let mut k: u32 = 0;
                while k < fresh
                    invariant
                        0 <= k <= fresh,
                        fresh == w0.effect_fresh_ticks(i as int, delta as int),
                        amount == damage_per_tick(w0.effects@[i as int].kind),
                        target == w0.target_of(i as int),
                        damage@ == before + Seq::new(
                            k as nat,
                            |j: int| DamageInstance { source: None, target: target, amount: amount },
                        ),
                    decreases fresh - k,
                {
                    damage.push(DamageInstance { source: None, target, amount });
                    k = k + 1;
                    proof {
                        assert(damage@ =~= before + Seq::new(
                            k as nat,
                            |j: int| DamageInstance { source: None, target: target, amount: amount },
                        ));
                    }
                }
                proof {
                    assert(damage@ =~= w0.effects_damage(i as int + 1, delta as int));
                }
                if !effect.timer.is_finished() {
                    kept.push(effect);
                    proof {
                        origin = origin.push(i as int);
                    }
                }
            }
            i = i + 1;
        }
        proof {
            assert forall|a: int, b: int|
                0 <= a < kept@.len() && 0 <= b < kept@.len() && a != b && #[trigger] kept@[a].holder
                    == #[trigger] kept@[b].holder implies kept@[a].kind != kept@[b].kind by {
                assert(origin[a] != origin[b]) by {
                    if a < b {
                        assert(origin[a] < origin[b]);
                    } else {
                        assert(origin[b] < origin[a]);
                    }
                }
                assert(w0.effects@[origin[a]].holder == w0.effects@[origin[b]].holder);
            }
        }
        self.effects = kept;
        proof {
            assert forall|e: int| 0 <= e < self.effects@.len() implies #[trigger] self.effect_wf(e) by {
                assert(w0.effect_wf(origin[e]));
            }
            assert forall|a: int| 0 <= a < self.actors@.len() implies #[trigger] self.actor_wf(a) by {
                assert(w0.actor_wf(a));
            }
            assert forall|s: int| 0 <= s < self.slots@.len() implies #[trigger] self.slot_wf(s) by {
                assert(w0.slot_wf(s));
            }
            assert forall|b: int| 0 <= b < self.abilities@.len() implies #[trigger] self.ability_wf(b) by {
                assert(w0.ability_wf(b));
            }
            assert forall|h: int| 0 <= h < self.effects_holders@.len() implies #[trigger] self.holder_wf(h) by {
                assert(w0.holder_wf(h));
            }
        }
        damage
    }
}

} // verus!
