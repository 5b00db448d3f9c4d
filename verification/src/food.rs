use vstd::prelude::*;

use crate::chain::WorldBounds;
use crate::chain::bounds_ok;
use crate::chain::pos_ok;
use crate::constants::FOOD_OFFSET_X;
use crate::constants::FOOD_OFFSET_Y;
use crate::constants::FOOD_PICKUP_DISTANCE;
use crate::geometry::Vec2;
use crate::geometry::dist_sq;
use crate::geometry::dist_sq_spec;

verus! {

/// One active food item.
#[derive(Clone, Copy, PartialEq, Eq, Structural, Debug)]
pub struct Food {
    pub position: Vec2,
}

/// A food item within `FOOD_PICKUP_DISTANCE` of the head — the boundary
/// itself included — is eaten. Compared on squared distances, so the
/// boundary is exact.
pub open spec fn within_pickup(f: Food, head: Vec2) -> bool {
    dist_sq_spec(f.position, head) <= FOOD_PICKUP_DISTANCE * FOOD_PICKUP_DISTANCE
}

/// The food items that survive one pickup check against the head, in their
/// original order.
pub open spec fn surviving_food(foods: Seq<Food>, head: Vec2) -> Seq<Food>
    decreases foods.len(),
{
    if foods.len() == 0 {
        Seq::empty()
    } else {
        let rest = surviving_food(foods.drop_last(), head);
        if within_pickup(foods.last(), head) {
            rest
        } else {
            rest.push(foods.last())
        }
    }
}

/// What survives is exactly what was out of pickup range: no surviving item
/// is within range, every out-of-range item survives, and every survivor
/// was already there.
pub proof fn lemma_pickup_membership(foods: Seq<Food>, head: Vec2)
    ensures
        forall|i: int|
            0 <= i < surviving_food(foods, head).len() ==> !within_pickup(
                #[trigger] surviving_food(foods, head)[i],
                head,
            ) && foods.contains(surviving_food(foods, head)[i]),
        forall|i: int|
            0 <= i < foods.len() && !within_pickup(#[trigger] foods[i], head) ==> surviving_food(
                foods,
                head,
            ).contains(foods[i]),
    decreases foods.len(),
{
    if foods.len() > 0 {
        lemma_pickup_membership(foods.drop_last(), head);
        let rest = surviving_food(foods.drop_last(), head);
        let all = surviving_food(foods, head);
        assert(forall|i: int|
            0 <= i < foods.drop_last().len() ==> foods.drop_last()[i] == foods[i]);
        assert(forall|i: int|
            0 <= i < rest.len() ==> foods.drop_last().contains(#[trigger] rest[i]));
        assert(forall|i: int|
            0 <= i < all.len() ==> !within_pickup(#[trigger] all[i], head) && foods.contains(
                all[i],
            ));
        assert forall|i: int|
            0 <= i < foods.len() && !within_pickup(#[trigger] foods[i], head) implies surviving_food(
            foods,
            head,
        ).contains(foods[i]) by {
            if i < foods.len() - 1 {
                assert(rest.contains(foods[i]));
                let k = choose|k: int| 0 <= k < rest.len() && rest[k] == foods[i];
                assert(all[k] == foods[i]);
            } else {
                assert(all.last() == foods[i]);
            }
        }
    }
}

/// Runs the food-pickup check: removes every food item within pickup range
/// of the head and reports how many were eaten, one signal per item.
pub fn check_food_eaten(foods: &mut Vec<Food>, head: Vec2, b: WorldBounds) -> (eaten: usize)
    requires
        bounds_ok(b),
        pos_ok(head, b),
        forall|i: int|
            0 <= i < old(foods)@.len() ==> pos_ok((#[trigger] old(foods)@[i]).position, b),
    ensures
        final(foods)@ == surviving_food(old(foods)@, head),
        eaten == old(foods)@.len() - final(foods)@.len(),
        final(foods)@.len() <= old(foods)@.len(),
        forall|i: int| 0 <= i < final(foods)@.len() ==> pos_ok((#[trigger] final(foods)@[i]).position, b),
{
    let ghost orig = foods@;
    let mut kept: Vec<Food> = Vec::new();
    let mut i: usize = 0;
    let n = foods.len();
    while i < n
        invariant
            bounds_ok(b),
            pos_ok(head, b),
            n == orig.len(),
            foods@ == orig,
            forall|j: int| 0 <= j < orig.len() ==> pos_ok((#[trigger] orig[j]).position, b),
            0 <= i <= n,
            kept@ == surviving_food(orig.subrange(0, i as int), head),
            kept@.len() <= i,
        decreases n - i,
    {
        let f = foods[i];
        let d = dist_sq(f.position, head);
        if d > FOOD_PICKUP_DISTANCE * FOOD_PICKUP_DISTANCE {
            kept.push(f);
        }
        proof {
            let pre = orig.subrange(0, i as int);
            let cur = orig.subrange(0, i + 1);
            assert(cur.drop_last() =~= pre);
            assert(cur.last() == orig[i as int]);
        }
        i = i + 1;
    }
    proof {
        assert(orig.subrange(0, n as int) =~= orig);
    }
    let remaining = n - kept.len();
    *foods = kept;
    proof {
        lemma_pickup_membership(orig, head);
        assert(forall|j: int|
            0 <= j < final(foods)@.len() ==> orig.contains(#[trigger] final(foods)@[j]));
        assert forall|j: int|
            0 <= j < final(foods)@.len() implies pos_ok(
            (#[trigger] final(foods)@[j]).position,
            b,
        ) by {
            let k = choose|k: int| 0 <= k < orig.len() && orig[k] == final(foods)@[j];
            assert(pos_ok(orig[k].position, b));
        }
    }
    remaining
}

/// Relies on rand's `thread_rng` and `Rng::gen_range`: a sample drawn from
/// a non-empty half-open integer range lies within that range.
#[verifier::external_body]
fn sample_range(low: i64, high: i64) -> (r: i64)
    requires
        low < high,
    ensures
        low <= r < high,
{
    rand::Rng::gen_range(&mut rand::thread_rng(), low..high)
}

/// The spawn-placement contract: food appears at least one margin away
/// from every world edge.
pub open spec fn in_spawn_margins(f: Food, b: WorldBounds) -> bool {
    &&& FOOD_OFFSET_X <= f.position.x < b.width - FOOD_OFFSET_X
    &&& FOOD_OFFSET_Y <= f.position.y < b.height - FOOD_OFFSET_Y
}

/// Answers one food spawn request with a random position inside the spawn
/// margins. Only range membership is promised: the placement is random, so
/// two calls with the same bounds may differ.
pub fn spawn_food(b: WorldBounds) -> (f: Food)
    requires
        bounds_ok(b),
    ensures
        in_spawn_margins(f, b),
        pos_ok(f.position, b),
{
    let x = sample_range(FOOD_OFFSET_X, b.width - FOOD_OFFSET_X);
    let y = sample_range(FOOD_OFFSET_Y, b.height - FOOD_OFFSET_Y);
    Food { position: Vec2 { x, y } }
}

/// Grants `n` spawn requests: appends `n` randomly placed food items, each
/// inside the spawn margins, leaving the existing items untouched.
pub fn replenish_food(foods: &mut Vec<Food>, n: usize, b: WorldBounds)
    requires
        bounds_ok(b),
    ensures
        final(foods)@.len() == old(foods)@.len() + n,
        forall|i: int| 0 <= i < old(foods)@.len() ==> final(foods)@[i] == old(foods)@[i],
        forall|i: int|
            old(foods)@.len() <= i < final(foods)@.len() ==> in_spawn_margins(
                #[trigger] final(foods)@[i],
                b,
            ),
        forall|i: int|
            old(foods)@.len() <= i < final(foods)@.len() ==> pos_ok(
                (#[trigger] final(foods)@[i]).position,
                b,
            ),
{
    let mut k: usize = 0;
    while k < n
        invariant
            bounds_ok(b),
            0 <= k <= n,
            foods@.len() == old(foods)@.len() + k,
            forall|i: int| 0 <= i < old(foods)@.len() ==> foods@[i] == old(foods)@[i],
            forall|i: int|
                old(foods)@.len() <= i < foods@.len() ==> in_spawn_margins(
                    #[trigger] foods@[i],
                    b,
                ),
            forall|i: int|
                old(foods)@.len() <= i < foods@.len() ==> pos_ok(
                    (#[trigger] foods@[i]).position,
                    b,
                ),
        decreases n - k,
    {
        let f = spawn_food(b);
        foods.push(f);
        k = k + 1;
    }
}

} // verus!
