//! What a generation run buys from: the candidates of each category at the
//! merchant's level, the cheapest common item of each category, and the
//! rules that turn random draws into a category and an item.
use vstd::prelude::*;

use crate::item::{Item, ItemCategory, Rarity, affordable, item_cost};
use crate::random::draw_below;
use rand::rngs::ThreadRng;

verus! {

/// Chance, out of `UPGRADE_ROLL_RANGE`, that a purchase becomes a rare item.
pub const RARE_PER_MILLE: u32 = 1;

/// Chance, out of `UPGRADE_ROLL_RANGE`, that a purchase becomes an uncommon
/// item, the rare chance included.
pub const UNCOMMON_PER_MILLE: u32 = 5;

/// The range of an upgrade roll.
pub const UPGRADE_ROLL_RANGE: u32 = 1000;

/// The candidates of one category at a merchant's level: the items of each
/// rarity, and the weight with which the category is drawn.
#[derive(Debug)]
pub struct CategoryStock {
    pub category: ItemCategory,
    pub weight: u32,
    pub common: Vec<Item>,
    pub uncommon: Vec<Item>,
    pub rare: Vec<Item>,
}

/// The candidates of every category that a run may draw.
#[derive(Debug)]
pub struct Catalog {
    pub stocks: Vec<CategoryStock>,
}

/// Whether `m` is the lowest price among the priced items of `items`, or
/// `None` where none of them has a price.
pub open spec fn is_min_cost(items: Seq<Item>, m: Option<i32>) -> bool {
    match m {
        None => forall|k: int| 0 <= k < items.len() ==> items[k].price is None,
        Some(v) => {
            &&& exists|k: int| 0 <= k < items.len() && items[k].price is Some && item_cost(items[k]) == v
            &&& forall|k: int|
                0 <= k < items.len() && items[k].price is Some ==> v <= item_cost(#[trigger] items[k])
        },
    }
}

/// Whether a category has a common item of at most `remaining` copper.
pub open spec fn affordable_category(stock: CategoryStock, remaining: int) -> bool {
    exists|k: int| 0 <= k < stock.common@.len() && affordable(stock.common@[k], remaining)
}

/// Whether a category can be drawn and bought from with `remaining`
/// copper: it has a weight and a common item of at most that price.
pub open spec fn viable(stock: CategoryStock, remaining: int) -> bool {
    stock.weight > 0 && affordable_category(stock, remaining)
}

/// The positions, in order, of the items of at most `budget` copper.
pub open spec fn positions_within(items: Seq<Item>, budget: int) -> Seq<int>
    decreases items.len(),
{
    if items.len() == 0 {
        Seq::empty()
    } else {
        let p = positions_within(items.drop_last(), budget);
        if affordable(items.last(), budget) {
            p.push(items.len() - 1)
        } else {
            p
        }
    }
}

/// The sum of a list of weights.
pub open spec fn weight_sum(w: Seq<u32>) -> int
    decreases w.len(),
{
    if w.len() == 0 {
        0
    } else {
        weight_sum(w.drop_last()) + w.last()
    }
}

/// The rarity that an upgrade roll turns a purchase into, given which of
/// the upgrade sets hold a candidate.
pub open spec fn upgrade_tier(roll: int, has_uncommon: bool, has_rare: bool) -> Rarity {
    if roll < RARE_PER_MILLE && has_rare {
        Rarity::Rare
    } else if roll < UNCOMMON_PER_MILLE && has_uncommon {
        Rarity::Uncommon
    } else {
        Rarity::Common
    }
}

/// The item bought with `remaining` copper, given the three draws: the
/// `item_roll`-th affordable common item (counted round), replaced by the
/// `pick_roll`-th priced item of the tier that `upgrade_roll` gives, unless
/// that one costs more than `remaining`. `None` where no common item is
/// affordable.
pub open spec fn selection(
    common: Seq<Item>,
    uncommon: Seq<Item>,
    rare: Seq<Item>,
    remaining: int,
    item_roll: int,
    upgrade_roll: int,
    pick_roll: int,
) -> Option<Item> {
    let c = positions_within(common, remaining);
    let u = positions_within(uncommon, i32::MAX as int);
    let r = positions_within(rare, i32::MAX as int);
    if c.len() == 0 {
        None
    } else {
        let base = common[c[item_roll % (c.len() as int)]];
        let upgrade = match upgrade_tier(upgrade_roll, u.len() > 0, r.len() > 0) {
            Rarity::Rare => Some(rare[r[pick_roll % (r.len() as int)]]),
            Rarity::Uncommon => Some(uncommon[u[pick_roll % (u.len() as int)]]),
            Rarity::Common => None,
        };
        match upgrade {
            Some(x) => if affordable(x, remaining) {
                Some(x)
            } else {
                Some(base)
            },
            None => Some(base),
        }
    }
}

/// Whether an item is one of the candidates of a category.
pub open spec fn in_stock(stock: CategoryStock, it: Item) -> bool {
    stock.common@.contains(it) || stock.uncommon@.contains(it) || stock.rare@.contains(it)
}

/// Whether an item is one of the candidates of the catalogue.
pub open spec fn in_catalog(catalog: Catalog, it: Item) -> bool {
    exists|s: int| 0 <= s < catalog.stocks@.len() && in_stock(catalog.stocks@[s], it)
}

/// Whether the budget is used up: nothing is left to spend, or no category
/// has a common item that can be paid for, whatever its weight.
pub open spec fn exhausted(catalog: Catalog, remaining: int) -> bool {
    remaining <= 0 || forall|s: int|
        0 <= s < catalog.stocks@.len() ==> !affordable_category(#[trigger] catalog.stocks@[s], remaining)
}

/// Whether some category can be drawn and bought from.
pub open spec fn any_viable(catalog: Catalog, remaining: int) -> bool {
    exists|s: int| 0 <= s < catalog.stocks@.len() && viable(#[trigger] catalog.stocks@[s], remaining)
}

/// Whether `it` is what some draws buy from these candidates with
/// `remaining` copper left.
pub open spec fn purchasable(common: Seq<Item>, uncommon: Seq<Item>, rare: Seq<Item>, remaining: int, it: Item) -> bool {
    exists|a: int, b: int, c: int|
        0 <= a && 0 <= b < UPGRADE_ROLL_RANGE && 0 <= c && #[trigger] selection(common, uncommon, rare, remaining, a, b, c)
            == Some(it)
}

/// Each position listed holds an affordable item, and each affordable item
/// is listed.
pub proof fn lemma_positions_within(items: Seq<Item>, budget: int)
    ensures
        forall|k: int|
            0 <= k < positions_within(items, budget).len() ==> {
                let j = #[trigger] positions_within(items, budget)[k];
                0 <= j < items.len() && affordable(items[j], budget)
            },
        forall|j: int|
            0 <= j < items.len() && #[trigger] affordable(items[j], budget) ==> positions_within(
                items,
                budget,
            ).contains(j),
    decreases items.len(),
{
    if items.len() > 0 {
        let rest = items.drop_last();
        lemma_positions_within(rest, budget);
        let p = positions_within(rest, budget);
        assert forall|j: int| 0 <= j < items.len() && #[trigger] affordable(items[j], budget) implies positions_within(
            items,
            budget,
        ).contains(j) by {
            if j < items.len() - 1 {
                assert(rest[j] == items[j]);
                let k = choose|k: int| 0 <= k < p.len() && p[k] == j;
                if affordable(items.last(), budget) {
                    assert(p.push(items.len() - 1)[k] == j);
                }
            } else {
                assert(p.push(items.len() - 1)[p.len() as int] == j);
            }
        }
    }
}

/// A purchase is made exactly where a common item is affordable; what is
/// bought is affordable and is one of the candidates.
pub proof fn lemma_selection(
    common: Seq<Item>,
    uncommon: Seq<Item>,
    rare: Seq<Item>,
    remaining: int,
    item_roll: int,
    upgrade_roll: int,
    pick_roll: int,
)
    requires
        0 <= item_roll,
        0 <= pick_roll,
    ensures
        selection(common, uncommon, rare, remaining, item_roll, upgrade_roll, pick_roll) is Some
            <==> positions_within(common, remaining).len() > 0,
        selection(common, uncommon, rare, remaining, item_roll, upgrade_roll, pick_roll) matches Some(x)
            ==> affordable(x, remaining) && (common.contains(x) || uncommon.contains(x) || rare.contains(x)),
{
    lemma_positions_within(common, remaining);
    lemma_positions_within(uncommon, i32::MAX as int);
    lemma_positions_within(rare, i32::MAX as int);
    let c = positions_within(common, remaining);
    let u = positions_within(uncommon, i32::MAX as int);
    let r = positions_within(rare, i32::MAX as int);
    if c.len() > 0 {
        let ci = item_roll % (c.len() as int);
        assert(common.contains(common[c[ci]]));
        if r.len() > 0 {
            let ri = pick_roll % (r.len() as int);
            assert(rare.contains(rare[r[ri]]));
        }
        if u.len() > 0 {
            let ui = pick_roll % (u.len() as int);
            assert(uncommon.contains(uncommon[u[ui]]));
        }
    }
}

/// A sum of weights is never negative, and it is zero only where every
/// weight is.
pub proof fn lemma_weight_sum(w: Seq<u32>)
    ensures
        weight_sum(w) >= 0,
        weight_sum(w) == 0 ==> forall|i: int| 0 <= i < w.len() ==> w[i] == 0,
    decreases w.len(),
{
    if w.len() > 0 {
        lemma_weight_sum(w.drop_last());
        assert forall|i: int| 0 <= i < w.len() - 1 implies w[i] == w.drop_last()[i] by {}
    }
}

/// Whether an item has a price of at most `budget` copper.
pub fn within_budget(it: &Item, budget: i32) -> (r: bool)
    ensures
        r == affordable(*it, budget as int),
{
    match &it.price {
        Some(p) => p.as_cp() <= budget,
        None => false,
    }
}

/// The positions, in order, of the items of at most `budget` copper.
pub fn indices_within(items: &Vec<Item>, budget: i32) -> (r: Vec<usize>)
    ensures
        r@.len() == positions_within(items@, budget as int).len(),
        forall|k: int| 0 <= k < r@.len() ==> r@[k] as int == positions_within(items@, budget as int)[k],
{
    let mut r: Vec<usize> = Vec::new();
    let mut i: usize = 0;
    while i < items.len()
        invariant
            i <= items@.len(),
            r@.len() == positions_within(items@.take(i as int), budget as int).len(),
            forall|k: int|
                0 <= k < r@.len() ==> r@[k] as int == positions_within(items@.take(i as int), budget as int)[k],
        decreases items@.len() - i,
    {
        assert(items@.take(i + 1).drop_last() =~= items@.take(i as int));
        assert(items@.take(i + 1).last() == items@[i as int]);
        if within_budget(&items[i], budget) {
            r.push(i);
        }
        i = i + 1;
    }
    assert(items@.take(i as int) =~= items@);
    r
}

/// The lowest price among the priced items of `items`.
pub fn min_cost(items: &Vec<Item>) -> (r: Option<i32>)
    ensures
        is_min_cost(items@, r),
{
    let mut best: Option<i32> = None;
    let mut i: usize = 0;
    while i < items.len()
        invariant
            i <= items@.len(),
            is_min_cost(items@.take(i as int), best),
        decreases items@.len() - i,
    {
        let ghost before = items@.take(i as int);
        let ghost after = items@.take(i + 1);
        assert(forall|k: int| 0 <= k < i ==> after[k] == before[k]);
        assert(after[i as int] == items@[i as int]);
        match &items[i].price {
            Some(p) => {
                let c = p.as_cp();
                match best {
                    Some(b) => {
                        if c < b {
                            best = Some(c);
                        }
                        assert(is_min_cost(after, best)) by {
                            if c < b {
                                assert(after[i as int].price is Some && item_cost(after[i as int]) == c);
                            } else {
                                let k = choose|k: int|
                                    0 <= k < before.len() && before[k].price is Some && item_cost(before[k]) == b;
                                assert(after[k] == before[k]);
                            }
                        }
                    },
                    None => {
                        best = Some(c);
                        assert(after[i as int].price is Some && item_cost(after[i as int]) == c);
                    },
                }
            },
            None => {
                assert(is_min_cost(after, best)) by {
                    if best is Some {
                        let b = best->Some_0;
                        let k = choose|k: int|
                            0 <= k < before.len() && before[k].price is Some && item_cost(before[k]) == b;
                        assert(after[k] == before[k]);
                    }
                }
            },
        }
        i = i + 1;
    }
    assert(items@.take(i as int) =~= items@);
    best
}

/// The cheapest common item of each category of the catalogue, in the
/// order of its stocks: `None` for a category without a priced common item.
pub fn get_min_for_each_category(catalog: &Catalog) -> (r: Vec<Option<i32>>)
    ensures
        r@.len() == catalog.stocks@.len(),
        forall|i: int| 0 <= i < r@.len() ==> is_min_cost(catalog.stocks@[i].common@, #[trigger] r@[i]),
{
    let mut r: Vec<Option<i32>> = Vec::new();
    let mut i: usize = 0;
    while i < catalog.stocks.len()
        invariant
            i <= catalog.stocks@.len(),
            r@.len() == i,
            forall|k: int| 0 <= k < i ==> is_min_cost(catalog.stocks@[k].common@, #[trigger] r@[k]),
        decreases catalog.stocks@.len() - i,
    {
        let m = min_cost(&catalog.stocks[i].common);
        r.push(m);
        i = i + 1;
    }
    r
}

/// The sum of a list of weights.
pub fn total_weight(w: &Vec<u32>) -> (r: u128)
    ensures
        r == weight_sum(w@),
{
    let mut sum: u128 = 0;
    let mut i: usize = 0;
    while i < w.len()
        invariant
            i <= w@.len(),
            sum == weight_sum(w@.take(i as int)),
            sum <= i * 0xFFFF_FFFFu128,
        decreases w@.len() - i,
    {
        assert(w@.take(i + 1).drop_last() =~= w@.take(i as int));
        assert(i * 0xFFFF_FFFFu128 + 0xFFFF_FFFFu128 <= 0xFFFF_FFFF_FFFF_FFFFu128 * 0xFFFF_FFFFu128 + 0xFFFF_FFFFu128) by (nonlinear_arith)
            requires
                i < 0x1_0000_0000_0000_0000u128,
        ;
        sum = sum + w[i] as u128;
        i = i + 1;
    }
    assert(w@.take(i as int) =~= w@);
    sum
}

/// The index that a roll below the total weight lands on: the one whose
/// stretch of the running sum holds the roll. An index of weight zero has
/// no stretch and is never chosen.
pub fn pick_weighted(w: &Vec<u32>, roll: u128) -> (r: usize)
    requires
        roll < weight_sum(w@),
    ensures
        r < w@.len(),
        weight_sum(w@.take(r as int)) <= roll < weight_sum(w@.take(r + 1)),
        w@[r as int] > 0,
{
    let mut acc: u128 = 0;
    let mut i: usize = 0;
    while i < w.len()
        invariant
            i <= w@.len(),
            acc == weight_sum(w@.take(i as int)),
            acc <= roll,
            roll < weight_sum(w@),
        decreases w@.len() - i,
    {
        assert(w@.take(i + 1).drop_last() =~= w@.take(i as int));
        if roll - acc < w[i] as u128 {
            return i;
        }
        acc = acc + w[i] as u128;
        i = i + 1;
    }
    assert(w@.take(i as int) =~= w@);
    0
}

/// The rarity that an upgrade roll turns a purchase into.
pub fn resolve_upgrade(roll: u32, has_uncommon: bool, has_rare: bool) -> (r: Rarity)
    ensures
        r == upgrade_tier(roll as int, has_uncommon, has_rare),
{
    if roll < RARE_PER_MILLE && has_rare {
        Rarity::Rare
    } else if roll < UNCOMMON_PER_MILLE && has_uncommon {
        Rarity::Uncommon
    } else {
        Rarity::Common
    }
}

/// The item bought with `remaining` copper given the three draws; see
/// [`selection`].
pub fn resolve_purchase(
    common: &Vec<Item>,
    uncommon: &Vec<Item>,
    rare: &Vec<Item>,
    remaining: i32,
    item_roll: usize,
    upgrade_roll: u32,
    pick_roll: usize,
) -> (r: Option<Item>)
    ensures
        r == selection(
            common@,
            uncommon@,
            rare@,
            remaining as int,
            item_roll as int,
            upgrade_roll as int,
            pick_roll as int,
        ),
{
    proof {
        lemma_positions_within(common@, remaining as int);
        lemma_positions_within(uncommon@, i32::MAX as int);
        lemma_positions_within(rare@, i32::MAX as int);
    }
    let c = indices_within(common, remaining);
    if c.len() == 0 {
        return None;
    }
    let base = &common[c[item_roll % c.len()]];
    let u = indices_within(uncommon, i32::MAX);
    let r = indices_within(rare, i32::MAX);
    let tier = resolve_upgrade(upgrade_roll, u.len() > 0, r.len() > 0);
    let upgrade: Option<&Item> = match tier {
        Rarity::Rare => Some(&rare[r[pick_roll % r.len()]]),
        Rarity::Uncommon => Some(&uncommon[u[pick_roll % u.len()]]),
        Rarity::Common => None,
    };
    match upgrade {
        Some(x) => {
            if within_budget(x, remaining) {
                return Some(x.clone());
            }
        },
        None => {},
    }
    Some(base.clone())
}

/// The draw weights of the categories with `remaining` copper left: a
/// category's weight where it can be bought from, zero where not.
/// `minimums` holds the cheapest common item of each category. A draw by
/// these weights gives each category the chance that drawing by the full
/// weights, and drawing again until a category that can be bought from
/// comes up, would give it; but it takes one draw.
pub fn viable_weights(catalog: &Catalog, minimums: &Vec<Option<i32>>, remaining: i32) -> (w: Vec<u32>)
    requires
        minimums@.len() == catalog.stocks@.len(),
        forall|i: int| 0 <= i < minimums@.len() ==> is_min_cost(catalog.stocks@[i].common@, #[trigger] minimums@[i]),
    ensures
        w@.len() == catalog.stocks@.len(),
        forall|i: int|
            0 <= i < w@.len() ==> #[trigger] w@[i] == if viable(catalog.stocks@[i], remaining as int) {
                catalog.stocks@[i].weight
            } else {
                0
            },
{
    let mut w: Vec<u32> = Vec::new();
    let mut i: usize = 0;
    while i < catalog.stocks.len()
        invariant
            i <= catalog.stocks@.len(),
            w@.len() == i,
            minimums@.len() == catalog.stocks@.len(),
            forall|k: int| 0 <= k < minimums@.len() ==> is_min_cost(catalog.stocks@[k].common@, #[trigger] minimums@[k]),
            forall|k: int|
                0 <= k < i ==> #[trigger] w@[k] == if viable(catalog.stocks@[k], remaining as int) {
                    catalog.stocks@[k].weight
                } else {
                    0
                },
        decreases catalog.stocks@.len() - i,
    {
        let stock = &catalog.stocks[i];
        let ghost items = stock.common@;
        let ghost m = minimums@[i as int];
        assert(is_min_cost(items, m));
        let cheap_enough = match minimums[i] {
            Some(c) => c <= remaining,
            None => false,
        };
        assert((stock.weight > 0 && cheap_enough) == viable(*stock, remaining as int)) by {
            if stock.weight > 0 && cheap_enough {
                let c = m->Some_0;
                let k = choose|k: int| 0 <= k < items.len() && items[k].price is Some && item_cost(items[k]) == c;
                assert(affordable(items[k], remaining as int));
            }
            if viable(*stock, remaining as int) {
                let k = choose|k: int| 0 <= k < items.len() && affordable(items[k], remaining as int);
                assert(items[k].price is Some);
            }
        }
        if stock.weight > 0 && cheap_enough {
            w.push(stock.weight);
        } else {
            w.push(0);
        }
        i = i + 1;
    }
    w
}

/// Draws a purchase from the given candidates with `remaining` copper left:
/// an affordable common item chosen uniformly, upgraded by an upgrade roll.
/// Whatever the draws, the result is the [`selection`] of some draws: it is
/// `None` exactly where no common item is affordable, and else an affordable
/// candidate.
pub fn draw_purchase(
    common: &Vec<Item>,
    uncommon: &Vec<Item>,
    rare: &Vec<Item>,
    remaining: i32,
    rng: &mut ThreadRng,
) -> (r: Option<Item>)
    ensures
        r is Some <==> positions_within(common@, remaining as int).len() > 0,
        r matches Some(x) ==> affordable(x, remaining as int) && (common@.contains(x) || uncommon@.contains(x)
            || rare@.contains(x)),
        r matches Some(x) ==> purchasable(common@, uncommon@, rare@, remaining as int, x),
{
    let n_common = indices_within(common, remaining).len();
    if n_common == 0 {
        proof {
            lemma_selection(common@, uncommon@, rare@, remaining as int, 0, 0, 0);
        }
        return None;
    }
    let item_roll = draw_below(rng, n_common as u128) as usize;
    let upgrade_roll = draw_below(rng, UPGRADE_ROLL_RANGE as u128) as u32;
    let n_uncommon = indices_within(uncommon, i32::MAX).len();
    let n_rare = indices_within(rare, i32::MAX).len();
    let pick_bound = match resolve_upgrade(upgrade_roll, n_uncommon > 0, n_rare > 0) {
        Rarity::Rare => n_rare,
        Rarity::Uncommon => n_uncommon,
        Rarity::Common => 1,
    };
    let pick_roll = draw_below(rng, pick_bound as u128) as usize;
    let r = resolve_purchase(common, uncommon, rare, remaining, item_roll, upgrade_roll, pick_roll);
    proof {
        lemma_selection(
            common@,
            uncommon@,
            rare@,
            remaining as int,
            item_roll as int,
            upgrade_roll as int,
            pick_roll as int,
        );
    }
    r
}

/// Whether some category has a common item that `remaining` copper can pay
/// for, whatever its weight. `minimums` holds the cheapest common item of
/// each category.
pub fn any_affordable(catalog: &Catalog, minimums: &Vec<Option<i32>>, remaining: i32) -> (r: bool)
    requires
        minimums@.len() == catalog.stocks@.len(),
        forall|i: int| 0 <= i < minimums@.len() ==> is_min_cost(catalog.stocks@[i].common@, #[trigger] minimums@[i]),
    ensures
        r == exists|s: int| 0 <= s < catalog.stocks@.len() && affordable_category(#[trigger] catalog.stocks@[s], remaining as int),
{
    let mut i: usize = 0;
    while i < minimums.len()
        invariant
            i <= minimums@.len(),
            minimums@.len() == catalog.stocks@.len(),
            forall|k: int| 0 <= k < minimums@.len() ==> is_min_cost(catalog.stocks@[k].common@, #[trigger] minimums@[k]),
            forall|k: int| 0 <= k < i ==> !affordable_category(#[trigger] catalog.stocks@[k], remaining as int),
        decreases minimums@.len() - i,
    {
        let ghost items = catalog.stocks@[i as int].common@;
        let ghost m = minimums@[i as int];
        assert(is_min_cost(items, m));
        let cheap_enough = match minimums[i] {
            Some(c) => c <= remaining,
            None => false,
        };
        if cheap_enough {
            proof {
                let c = m->Some_0;
                let k = choose|k: int| 0 <= k < items.len() && items[k].price is Some && item_cost(items[k]) == c;
                assert(affordable(items[k], remaining as int));
                assert(affordable_category(catalog.stocks@[i as int], remaining as int));
            }
            return true;
        }
        proof {
            if affordable_category(catalog.stocks@[i as int], remaining as int) {
                let k = choose|k: int| 0 <= k < items.len() && affordable(items[k], remaining as int);
                assert(items[k].price is Some);
            }
        }
        i = i + 1;
    }
    false
}

} // verus!
