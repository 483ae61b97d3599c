use vstd::prelude::*;

use crate::ability::{
    Ability, AbilityId, CastEvent, Cooldown, CHARGED_STRIKE_DAMAGE, WEAPON_ATTACK_DAMAGE,
};
use crate::effects::{fresh_effect_timer, DamageInstance, EffectKind};
use crate::timer::CountdownTimer;
use crate::world::{lemma_wf_frame, World};

verus! {

impl World {
    /// The hits that performing ability `b` on `target` deals.
    pub open spec fn ability_damage(self, b: int, target: Option<usize>) -> Seq<DamageInstance> {
        let ability = self.abilities@[b];
        match (ability.id, target) {
            (AbilityId::WeaponAttack, Some(t)) => seq![
                DamageInstance { source: Some(ability.holder), target: t, amount: WEAPON_ATTACK_DAMAGE },
            ],
            (AbilityId::ChargedStrike, Some(t)) => seq![
                DamageInstance { source: Some(ability.holder), target: t, amount: CHARGED_STRIKE_DAMAGE },
            ],
            _ => seq![],
        }
    }

    /// The actor and kind of the effect that performing ability `b` on `target` puts on.
    pub open spec fn ability_effect(self, b: int, target: Option<usize>) -> Option<(usize, EffectKind)> {
        let ability = self.abilities@[b];
        match (ability.id, target) {
            (AbilityId::NeedlingHex, Some(t)) => Some((t, EffectKind::NeedlingHex)),
            (AbilityId::PreparedBlock, _) => Some((ability.holder, EffectKind::PreparedBlock)),
            _ => None,
        }
    }

    /// `target` holds an instance of `kind` that has not ticked yet.
    pub open spec fn has_fresh_effect(self, target: int, kind: EffectKind) -> bool {
        exists|e: int| self.effect_of(target, kind, e) && self.effects@[e].timer == fresh_effect_timer(kind)
    }

    /// Carries out ability `ability_e` on `target`: a weapon attack or charged strike hits
    /// the target, a needling hex puts a fresh hex on it, a prepared block a fresh block on
    /// the caster. Returns the hits dealt.
    pub fn perform_ability(&mut self, ability_e: usize, target: Option<usize>) -> (damage: Vec<DamageInstance>)
        requires
            old(self).wf(),
            ability_e < old(self).abilities@.len(),
            target matches Some(t) ==> t < old(self).actors@.len(),
        ensures
            final(self).wf(),
            damage@ == old(self).ability_damage(ability_e as int, target),
            match old(self).ability_effect(ability_e as int, target) {
                Some(p) => {
                    &&& final(self).has_fresh_effect(p.0 as int, p.1)
                    &&& forall|a: int, k: EffectKind, e: int|
                        0 <= a < old(self).actors@.len() && !(a == p.0 && k == p.1) ==> (
                        #[trigger] final(self).effect_of(a, k, e) <==> old(self).effect_of(a, k, e))
                    &&& forall|e: int|
                        0 <= e < old(self).effects@.len() && !old(self).effect_of(p.0 as int, p.1, e)
                            ==> #[trigger] final(self).effects@[e] == old(self).effects@[e]
                },
                None => final(self).effects == old(self).effects && final(self).actors == old(self).actors
                    && final(self).effects_holders == old(self).effects_holders,
            },
            final(self).actors@.len() == old(self).actors@.len(),
            forall|a: int|
                0 <= a < old(self).actors@.len() ==> {
                    let x = #[trigger] final(self).actors@[a];
                    let y = old(self).actors@[a];
                    &&& x.fight == y.fight
                    &&& x.faction == y.faction
                    &&& x.health == y.health
                },
            final(self).fights == old(self).fights,
            final(self).slots == old(self).slots,
            final(self).abilities == old(self).abilities,
    {
        let ability = self.abilities[ability_e];
        proof {
            assert(self.ability_wf(ability_e as int));
        }
        let mut damage: Vec<DamageInstance> = Vec::new();
        match ability.id {
            AbilityId::WeaponAttack => {
                match target {
                    Some(t) => damage.push(
                        DamageInstance { source: Some(ability.holder), target: t, amount: WEAPON_ATTACK_DAMAGE },
                    ),
                    None => {},
                }
            },
            AbilityId::ChargedStrike => {
                match target {
                    Some(t) => damage.push(
                        DamageInstance { source: Some(ability.holder), target: t, amount: CHARGED_STRIKE_DAMAGE },
                    ),
                    None => {},
                }
            },
            AbilityId::NeedlingHex => {
                match target {
                    Some(t) => {
                        let kind = EffectKind::NeedlingHex;
                        let timer = kind.new_timer();
                        self.spawn_or_replace_unique_effect(t, kind, timer);
                    },
                    None => {},
                }
            },
            AbilityId::PreparedBlock => {
                let kind = EffectKind::PreparedBlock;
                let timer = kind.new_timer();
                self.spawn_or_replace_unique_effect(ability.holder, kind, timer);
            },
        }
        proof {
            assert(damage@ =~= old(self).ability_damage(ability_e as int, target));
        }
        damage
    }

    /// Puts ability `ability_e`'s own cooldown on it afresh, if it has one.
    pub fn apply_ability_cooldown(&mut self, ability_e: usize)
        requires
            old(self).wf(),
            ability_e < old(self).abilities@.len(),
        ensures
            final(self).wf(),
            final(self).abilities@ == old(self).abilities@.update(
                ability_e as int,
                Ability {
                    cooldown: match old(self).abilities@[ability_e as int].cooldown_duration {
                        Some(d) => Some(
                            Cooldown { cooldown_timer: CountdownTimer { duration: d, elapsed: 0, finished: false } },
                        ),
                        None => old(self).abilities@[ability_e as int].cooldown,
                    },
                    ..old(self).abilities@[ability_e as int]
                },
            ),
            final(self).fights == old(self).fights,
            final(self).actors == old(self).actors,
            final(self).slots == old(self).slots,
            final(self).effects_holders == old(self).effects_holders,
            final(self).effects == old(self).effects,
    {
        let mut ability = self.abilities[ability_e];
        match ability.cooldown_duration {
            Some(d) => {
                ability.cooldown = Some(Cooldown::new(d));
                self.abilities.set(ability_e, ability);
                proof {
                    assert(self.ability_wf(ability_e as int)) by {
                        assert(old(self).ability_wf(ability_e as int));
                    }
                    lemma_wf_frame(*old(self), *self);
                }
            },
            None => {
                proof {
                    assert(self.abilities@ =~= old(self).abilities@.update(ability_e as int, ability));
                }
            },
        }
    }

    /// The ability and target of every event in `events` name records of this world.
    pub open spec fn events_resolve(self, events: Seq<CastEvent>) -> bool {
        forall|k: int|
            0 <= k < events.len() ==> match #[trigger] events[k] {
                CastEvent::FinishedSuccessfully { ability_entity, cast_target, .. } => {
                    &&& ability_entity < self.abilities@.len()
                    &&& cast_target matches Some(t) ==> t < self.actors@.len()
                },
                CastEvent::Aborted { .. } => true,
            }
    }

    /// The hits dealt by performing the casts that the first `n` of `events` report finished.
    pub open spec fn events_damage(self, events: Seq<CastEvent>, n: int) -> Seq<DamageInstance>
        decreases n,
    {
        if n <= 0 {
            seq![]
        } else {
            self.events_damage(events, n - 1) + match events[n - 1] {
                CastEvent::FinishedSuccessfully { ability_entity, cast_target, .. } => self.ability_damage(
                    ability_entity as int,
                    cast_target,
                ),
                CastEvent::Aborted { .. } => seq![],
            }
        }
    }

    /// The effect, if any, that performing the cast reported by `event` puts on.
    pub open spec fn event_effect(self, event: CastEvent) -> Option<(usize, EffectKind)> {
        match event {
            CastEvent::FinishedSuccessfully { ability_entity, cast_target, .. } => self.ability_effect(
                ability_entity as int,
                cast_target,
            ),
            CastEvent::Aborted { .. } => None,
        }
    }

    /// Ability `b` is among those the first `n` of `events` report finished.
    pub open spec fn finished_among(events: Seq<CastEvent>, n: int, b: int) -> bool {
        exists|k: int|
            0 <= k < n && (#[trigger] events[k] matches CastEvent::FinishedSuccessfully { ability_entity, .. }
                && ability_entity == b)
    }

    /// Ability `b` after its own cooldown is put on it, if `finished`.
    pub open spec fn ability_after_finish(self, b: int, finished: bool) -> Ability {
        let ability = self.abilities@[b];
        Ability {
            cooldown: if finished && ability.cooldown_duration.is_some() {
                Some(
                    Cooldown {
                        cooldown_timer: CountdownTimer {
                            duration: ability.cooldown_duration.unwrap(),
                            elapsed: 0,
                            finished: false,
                        },
                    },
                )
            } else {
                ability.cooldown
            },
            ..ability
        }
    }

    /// Reacts to the completion signals in `events`, in order: each finished cast's ability is
    /// performed, and only then is the ability's own cooldown put on it. Abort signals are
    /// passed over. Returns the hits dealt.
    pub fn perform_finished_casts(&mut self, events: &Vec<CastEvent>) -> (damage: Vec<DamageInstance>)
        requires
            old(self).wf(),
            old(self).events_resolve(events@),
        ensures
            final(self).wf(),
            damage@ == old(self).events_damage(events@, events@.len() as int),
            final(self).abilities@.len() == old(self).abilities@.len(),
            forall|b: int|
                0 <= b < old(self).abilities@.len() ==> #[trigger] final(self).abilities@[b]
                    == old(self).ability_after_finish(b, World::finished_among(events@, events@.len() as int, b)),
            forall|k: int|
                0 <= k < events@.len() ==> (#[trigger] old(self).event_effect(events@[k])).is_some()
                    ==> final(self).has_fresh_effect(
                    old(self).event_effect(events@[k]).unwrap().0 as int,
                    old(self).event_effect(events@[k]).unwrap().1,
                ),
            final(self).actors@.len() == old(self).actors@.len(),
            forall|a: int|
                0 <= a < old(self).actors@.len() ==> {
                    let x = #[trigger] final(self).actors@[a];
                    let y = old(self).actors@[a];
                    &&& x.fight == y.fight
                    &&& x.faction == y.faction
                    &&& x.health == y.health
                },
            (forall|k: int| 0 <= k < events@.len() ==> (#[trigger] old(self).event_effect(events@[k])) is None)
                ==> final(self).effects == old(self).effects,
            final(self).fights == old(self).fights,
            final(self).slots == old(self).slots,
    {
        let ghost w0 = *self;
        let mut damage: Vec<DamageInstance> = Vec::new();
        let n = events.len();
        let mut i: usize = 0;
        while i < n
            invariant
                0 <= i <= n,
                n == events@.len(),
                w0.events_resolve(events@),
                w0.wf(),
                self.wf(),
                damage@ == w0.events_damage(events@, i as int),
                self.abilities@.len() == w0.abilities@.len(),
                forall|b: int|
                    0 <= b < w0.abilities@.len() ==> #[trigger] self.abilities@[b]
                        == w0.ability_after_finish(b, World::finished_among(events@, i as int, b)),
                forall|k: int|
                    0 <= k < i ==> (#[trigger] w0.event_effect(events@[k])).is_some()
                        ==> self.has_fresh_effect(
                        w0.event_effect(events@[k]).unwrap().0 as int,
                        w0.event_effect(events@[k]).unwrap().1,
                    ),
                self.actors@.len() == w0.actors@.len(),
                forall|a: int|
                    0 <= a < w0.actors@.len() ==> {
                        let x = #[trigger] self.actors@[a];
                        let y = w0.actors@[a];
                        &&& x.fight == y.fight
                        &&& x.faction == y.faction
                        &&& x.health == y.health
                    },
                (forall|k: int| 0 <= k < i ==> (#[trigger] w0.event_effect(events@[k])) is None)
                    ==> self.effects == w0.effects,
                self.fights == w0.fights,
                self.slots == w0.slots,
            decreases n - i,
        {
            let ghost before = *self;
            let event = events[i];
            proof {
                assert(w0.events_resolve(events@));
                let _ = events@[i as int];
            }
            match event {
                CastEvent::FinishedSuccessfully { slot_entity: _, ability_entity, cast_target } => {
                    proof {
                        assert(self.ability_damage(ability_entity as int, cast_target)
                            == w0.ability_damage(ability_entity as int, cast_target));
                        assert(self.ability_effect(ability_entity as int, cast_target)
                            == w0.ability_effect(ability_entity as int, cast_target));
                    }
                    let mut hits = self.perform_ability(ability_entity, cast_target);
                    let ghost mid = *self;
                    proof {
                        assert forall|k: int|
                            0 <= k < i && (#[trigger] w0.event_effect(events@[k])).is_some()
                                implies mid.has_fresh_effect(
                                w0.event_effect(events@[k]).unwrap().0 as int,
                                w0.event_effect(events@[k]).unwrap().1,
                            ) by {
                            let p = w0.event_effect(events@[k]).unwrap();
                            assert(before.ability_wf(ability_entity as int));
                            match events@[k] {
                                CastEvent::FinishedSuccessfully { ability_entity: bk, .. } => {
                                    assert(w0.ability_wf(bk as int));
                                },
                                CastEvent::Aborted { .. } => {},
                            }
                            lemma_fresh_effect_kept(
                                before,
                                mid,
                                before.ability_effect(ability_entity as int, cast_target),
                                p.0 as int,
                                p.1,
                            );
                        }
                    }
                    let ghost dmg_before = damage@;
                    damage.append(&mut hits);
                    self.apply_ability_cooldown(ability_entity);
                    proof {
                        assert(damage@ =~= w0.events_damage(events@, i as int + 1));
                        assert forall|b: int| 0 <= b < w0.abilities@.len() implies #[trigger] self.abilities@[b]
                            == w0.ability_after_finish(b, World::finished_among(events@, i as int + 1, b)) by {
                            if b == ability_entity as int {
                                assert(World::finished_among(events@, i as int + 1, b)) by {
                                    assert(events@[i as int] matches CastEvent::FinishedSuccessfully { ability_entity: ae, .. } && ae == b);
                                }
                            } else {
                                assert(World::finished_among(events@, i as int + 1, b) == World::finished_among(events@, i as int, b)) by {
                                    if World::finished_among(events@, i as int + 1, b) {
                                        let k = choose|k: int|
                                            0 <= k < i + 1 && (#[trigger] events@[k] matches CastEvent::FinishedSuccessfully { ability_entity, .. }
                                                && ability_entity == b);
                                        assert(k != i);
                                    }
                                }
                            }
                        }
                        assert forall|k: int|
                            0 <= k < i + 1 && (#[trigger] w0.event_effect(events@[k])).is_some()
                                implies self.has_fresh_effect(
                                w0.event_effect(events@[k]).unwrap().0 as int,
                                w0.event_effect(events@[k]).unwrap().1,
                            ) by {
                            let p = w0.event_effect(events@[k]).unwrap();
                            assert(mid.has_fresh_effect(p.0 as int, p.1));
                            let e = choose|e: int| mid.effect_of(p.0 as int, p.1, e) && mid.effects@[e].timer == fresh_effect_timer(p.1);
                            assert(self.effect_of(p.0 as int, p.1, e));
                        }
                    }
                },
                CastEvent::Aborted { .. } => {
                    proof {
                        assert(damage@ =~= w0.events_damage(events@, i as int + 1));
                        assert forall|b: int| 0 <= b < w0.abilities@.len() implies #[trigger] self.abilities@[b]
                            == w0.ability_after_finish(b, World::finished_among(events@, i as int + 1, b)) by {
                            assert(World::finished_among(events@, i as int + 1, b) == World::finished_among(events@, i as int, b)) by {
                                if World::finished_among(events@, i as int + 1, b) {
                                    let k = choose|k: int|
                                        0 <= k < i + 1 && (#[trigger] events@[k] matches CastEvent::FinishedSuccessfully { ability_entity, .. }
                                            && ability_entity == b);
                                    assert(k != i);
                                }
                            }
                        }
                    }
                },
            }
            proof {
                if forall|k: int| 0 <= k < i + 1 ==> (#[trigger] w0.event_effect(events@[k])) is None {
                    assert(w0.event_effect(events@[i as int]) is None);
                    assert forall|k: int| 0 <= k < i implies (#[trigger] w0.event_effect(events@[k])) is None by {
                        assert(0 <= k < i + 1);
                    }
                    assert(before.effects == w0.effects);
                }
            }
            i = i + 1;
        }
        damage
    }
}

/// Two actors with the same effect holder are the same actor.
proof fn lemma_holder_determines_actor(w: World, a1: int, a2: int)
    requires
        w.wf(),
        0 <= a1 < w.actors@.len(),
        0 <= a2 < w.actors@.len(),
        w.actors@[a1].effects_holder is Some,
        w.actors@[a1].effects_holder == w.actors@[a2].effects_holder,
    ensures
        a1 == a2,
{
    assert(w.actor_wf(a1));
    assert(w.actor_wf(a2));
}

/// A fresh instance of `kind` on `target` outlives the performing of an ability that puts on
/// an effect `p`, whatever `p` is.
proof fn lemma_fresh_effect_kept(
    w0: World,
    w1: World,
    p: Option<(usize, EffectKind)>,
    target: int,
    kind: EffectKind,
)
    requires
        w0.wf(),
        0 <= target < w0.actors@.len(),
        w0.has_fresh_effect(target, kind),
        match p {
            Some(q) => {
                &&& q.0 < w0.actors@.len()
                &&& w1.has_fresh_effect(q.0 as int, q.1)
                &&& forall|a: int, k: EffectKind, e: int|
                    0 <= a < w0.actors@.len() && !(a == q.0 && k == q.1) ==> (
                    #[trigger] w1.effect_of(a, k, e) <==> w0.effect_of(a, k, e))
                &&& forall|e: int|
                    0 <= e < w0.effects@.len() && !w0.effect_of(q.0 as int, q.1, e)
                        ==> #[trigger] w1.effects@[e] == w0.effects@[e]
            },
            None => w1.effects == w0.effects && w1.actors == w0.actors,
        },
    ensures
        w1.has_fresh_effect(target, kind),
{
    let e0 = choose|e: int| w0.effect_of(target, kind, e) && w0.effects@[e].timer == fresh_effect_timer(kind);
    match p {
        Some(q) => {
            if !(target == q.0 && kind == q.1) {
                if w0.effect_of(q.0 as int, q.1, e0) {
                    lemma_holder_determines_actor(w0, target, q.0 as int);
                }
                assert(w1.effect_of(target, kind, e0));
            }
        },
        None => {
            assert(w1.effect_of(target, kind, e0));
        },
    }
}

} // verus!
