//! Deferred damage resolution.
//!
//! Towers never damage enemies directly: each shot is recorded as a
//! `DamageEvent` and the whole batch is applied after every tower has
//! chosen its targets, so one tower's kill cannot change another
//! tower's candidate set within the same tick.  The final health of
//! each enemy depends only on the total damage aimed at it, never on
//! the order the events are applied in — stated and proved as
//! `lemma_damage_conservation`.

use vstd::prelude::*;
use crate::enemy::Enemy;

verus! {

/// One pending hit: `amount` damage aimed at the enemy at list
/// position `target`.
#[derive(Clone, Copy, Debug, PartialEq, Eq, Structural)]
pub struct DamageEvent {
    pub target: usize,
    pub amount: u32,
}

/// What one event contributes to the enemy at position `i`.
pub open spec fn damage_from(ev: DamageEvent, i: int) -> int {
    if ev.target == i {
        ev.amount as int
    } else {
        0
    }
}

/// Total damage a batch aims at the enemy at position `i`.
pub open spec fn damage_to(events: Seq<DamageEvent>, i: int) -> int
    decreases events.len(),
{
    if events.len() == 0 {
        0
    } else {
        damage_to(events.drop_last(), i) + damage_from(events.last(), i)
    }
}

/// Health after `d` damage, clamped at zero.
pub open spec fn sat_sub_health(h: u32, d: int) -> u32 {
    if d >= h {
        0u32
    } else {
        (h - d) as u32
    }
}

/// The enemy after taking `d` damage: only health changes.
pub open spec fn spec_damaged(e: Enemy, d: int) -> Enemy {
    Enemy { health: sat_sub_health(e.health, d), ..e }
}

/// Every enemy after a whole batch: each takes exactly the total
/// damage aimed at its position.
pub open spec fn spec_apply_events(enemies: Seq<Enemy>, events: Seq<DamageEvent>) -> Seq<Enemy> {
    Seq::new(enemies.len(), |i: int| spec_damaged(enemies[i], damage_to(events, i)))
}

/// Applies a batch of damage events in list order.  An event whose
/// target is out of range is skipped, matching a target index that no
/// longer exists.
pub fn apply_damage_events(enemies: &mut Vec<Enemy>, events: &Vec<DamageEvent>)
    ensures
        final(enemies)@ == spec_apply_events(old(enemies)@, events@),
{
    let ghost orig = enemies@;
    let mut k: usize = 0;
    while k < events.len()
        invariant
            k <= events@.len(),
            enemies@.len() == orig.len(),
            forall|i: int|
                0 <= i < orig.len() ==> enemies@[i] == spec_damaged(
                    orig[i],
                    damage_to(events@.take(k as int), i),
                ),
        decreases events@.len() - k,
    {
        let ev = events[k];
        let ghost pre = enemies@;
        if ev.target < enemies.len() {
            let mut e = enemies[ev.target];
            e.take_damage(ev.amount);
            enemies.set(ev.target, e);
        }
        proof {
            assert(events@.take(k + 1).drop_last() =~= events@.take(k as int));
            assert(events@.take(k + 1).last() == events@[k as int]);
            assert forall|i: int| 0 <= i < orig.len() implies enemies@[i] == spec_damaged(
                orig[i],
                damage_to(events@.take(k + 1), i),
            ) by {
                let dk = damage_to(events@.take(k as int), i);
                let a = damage_from(events@[k as int], i);
                assert(damage_to(events@.take(k + 1), i) == dk + a);
                assert(pre[i] == spec_damaged(orig[i], dk));
                assert(dk >= 0) by {
                    lemma_damage_to_nonneg(events@.take(k as int), i);
                }
                if ev.target < orig.len() && i == ev.target {
                    assert(enemies@[i].health == sat_sub_health(pre[i].health, ev.amount as int));
                    assert(enemies@[i].health == sat_sub_health(orig[i].health, dk + a));
                } else {
                    assert(enemies@[i] == pre[i]);
                    assert(a == 0);
                }
            }
        }
        k = k + 1;
    }
    proof {
        assert(events@.take(events@.len() as int) =~= events@);
        assert(enemies@ =~= spec_apply_events(orig, events@));
    }
}

/// A batch never aims negative damage at anyone.
pub proof fn lemma_damage_to_nonneg(events: Seq<DamageEvent>, i: int)
    ensures
        damage_to(events, i) >= 0,
    decreases events.len(),
{
    if events.len() > 0 {
        lemma_damage_to_nonneg(events.drop_last(), i);
    }
}

/// Removing one event removes exactly its contribution.
proof fn lemma_damage_to_remove(events: Seq<DamageEvent>, k: int, i: int)
    requires
        0 <= k < events.len(),
    ensures
        damage_to(events.remove(k), i) == damage_to(events, i) - damage_from(events[k], i),
    decreases events.len(),
{
    if k == events.len() - 1 {
        assert(events.remove(k) =~= events.drop_last());
    } else {
        assert(events.remove(k).drop_last() =~= events.drop_last().remove(k));
        assert(events.remove(k).last() == events.last());
        lemma_damage_to_remove(events.drop_last(), k, i);
    }
}

/// Two batches holding the same events aim the same total damage at
/// every position, whatever their order.
pub proof fn lemma_damage_order_independent(e1: Seq<DamageEvent>, e2: Seq<DamageEvent>, i: int)
    requires
        e1.to_multiset() == e2.to_multiset(),
    ensures
        damage_to(e1, i) == damage_to(e2, i),
    decreases e1.len(),
{
    e1.to_multiset_ensures();
    e2.to_multiset_ensures();
    if e1.len() == 0 {
        assert(e2.len() == 0);
    } else {
        let x = e1.last();
        assert(e1.contains(x));
        assert(e2.to_multiset().count(x) > 0);
        assert(e2.contains(x));
        let j = choose|j: int| 0 <= j < e2.len() && e2[j] == x;
        assert(e1.remove(e1.len() - 1) =~= e1.drop_last());
        assert(e1.drop_last().to_multiset() =~= e1.to_multiset().remove(x));
        assert(e2.remove(j).to_multiset() =~= e2.to_multiset().remove(x));
        lemma_damage_order_independent(e1.drop_last(), e2.remove(j), i);
        lemma_damage_to_remove(e2, j, i);
    }
}

/// Damage conservation: applying one tick's deferred damage events
/// yields the same final health values in whatever order the events
/// are applied — any reordering of the batch gives the same result.
pub proof fn lemma_damage_conservation(
    enemies: Seq<Enemy>,
    e1: Seq<DamageEvent>,
    e2: Seq<DamageEvent>,
)
    requires
        e1.to_multiset() == e2.to_multiset(),
    ensures
        spec_apply_events(enemies, e1) == spec_apply_events(enemies, e2),
{
    assert forall|i: int| 0 <= i < enemies.len() implies spec_apply_events(enemies, e1)[i]
        == spec_apply_events(enemies, e2)[i] by {
        lemma_damage_order_independent(e1, e2, i);
    }
    assert(spec_apply_events(enemies, e1) =~= spec_apply_events(enemies, e2));
}

} // verus!
