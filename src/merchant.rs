//! A merchant: the wealth it may spend, its level, and the inventory that a
//! generation run buys for it.
//!
//! A run first stocks rations: a share of one twenty-fourth of the wealth,
//! at most `MAX_RATIONS` units. It then spends what is left of the wealth on
//! the catalogue: it draws a category that can still be bought from, by
//! weight, buys an affordable common item of it, which an upgrade roll may
//! turn into an uncommon or rare one, and pays for what it bought. Both
//! phases pay from one pool, and neither buys what the pool cannot pay for,
//! so a run never spends more than the wealth. An upgrade that costs more
//! than is left is declined and the common item is bought instead.
use vstd::prelude::*;

use crate::catalog::{
    Catalog, CategoryStock, affordable_category, any_affordable, any_viable, draw_purchase, exhausted,
    get_min_for_each_category, in_catalog, in_stock, lemma_weight_sum, pick_weighted, positions_within,
    purchasable, total_weight, viable, viable_weights,
};
use crate::item::{Item, affordable, item_cost};
use crate::price::Price;
use crate::random::draw_below;
use rand::rngs::ThreadRng;

verus! {

/// Merchants hold a third of what the treasure table gives players.
pub const MERCHANT_WEALTH_DIVISOR: i32 = 3;

/// The share of the wealth spent on rations is one part in this many.
pub const RATIONS_SHARE_DIVISOR: i32 = 24;

/// The most rations a run stocks.
pub const MAX_RATIONS: u32 = 10;

/// The number of purchases after which a run that still could buy gives up.
pub const DEFAULT_ITERATION_CAP: u32 = 100_000;

/// Why a generation run failed.
#[derive(Debug, Clone, Copy, PartialEq, Eq, Structural)]
pub enum GenerationError {
    /// The staple item that a run stocks first has no price.
    MissingStaple,
    /// The run made as many purchases as it may and could still buy.
    IterationCapExceeded,
}

/// A merchant as the library sees it.
pub struct MerchantView {
    pub wealth: int,
    pub level: int,
    pub inventory: Seq<Item>,
}

/// An item that an inventory may hold: it has a price that fits in an `i32`.
pub open spec fn sellable(it: Item) -> bool {
    it.price is Some && 0 <= item_cost(it) <= i32::MAX
}

/// The total price of a list of items, in copper.
pub open spec fn value_of(items: Seq<Item>) -> int
    decreases items.len(),
{
    if items.len() == 0 {
        0
    } else {
        value_of(items.drop_last()) + item_cost(items.last())
    }
}

/// The items that a call added at the end of the inventory.
pub open spec fn added_items(before: MerchantView, after: MerchantView) -> Seq<Item> {
    after.inventory.skip(before.inventory.len() as int)
}

/// The call kept the wealth and the level, and only added items at the end.
pub open spec fn only_appended(before: MerchantView, after: MerchantView) -> bool {
    &&& after.wealth == before.wealth
    &&& after.level == before.level
    &&& after.inventory.len() >= before.inventory.len()
    &&& after.inventory.take(before.inventory.len() as int) == before.inventory
}

/// The gold pieces that the treasure table gives players of a level.
pub open spec fn treasure_gp(level: int) -> int {
    if level == 1 {
        175
    } else if level == 2 {
        300
    } else if level == 3 {
        500
    } else if level == 4 {
        850
    } else if level == 5 {
        1350
    } else if level == 6 {
        2000
    } else if level == 7 {
        2900
    } else if level == 8 {
        4000
    } else if level == 9 {
        5700
    } else if level == 10 {
        8000
    } else if level == 11 {
        11500
    } else if level == 12 {
        16500
    } else if level == 13 {
        25000
    } else if level == 14 {
        36500
    } else if level == 15 {
        54500
    } else if level == 16 {
        82500
    } else if level == 17 {
        128000
    } else if level == 18 {
        208000
    } else if level == 19 {
        355000
    } else {
        490000
    }
}

/// The copper set aside for rations out of a wealth.
pub open spec fn rations_allowance(wealth: int) -> int {
    if wealth <= 0 {
        0
    } else {
        wealth / RATIONS_SHARE_DIVISOR as int
    }
}

/// How many rations of the given price are stocked, from `count` stocked
/// on, with `allowance` of the rations share and `remaining` of the pool
/// left: one more while the share is not used up, the cap is not reached
/// and the pool can pay for it.
pub open spec fn ration_units(allowance: int, remaining: int, price: int, count: int) -> int
    decreases MAX_RATIONS - count,
{
    if count < MAX_RATIONS && allowance > 0 && price <= remaining {
        1 + ration_units(allowance - price, remaining - price, price, count + 1)
    } else {
        0
    }
}

/// The value of a list grows by the price of each item put at its end.
pub proof fn lemma_value_push(items: Seq<Item>, it: Item)
    ensures
        value_of(items.push(it)) == value_of(items) + item_cost(it),
{
    assert(items.push(it).drop_last() =~= items);
}

/// The value of two lists one after the other is the sum of their values.
pub proof fn lemma_value_concat(a: Seq<Item>, b: Seq<Item>)
    ensures
        value_of(a + b) == value_of(a) + value_of(b),
    decreases b.len(),
{
    if b.len() > 0 {
        lemma_value_concat(a, b.drop_last());
        assert((a + b).drop_last() =~= a + b.drop_last());
    } else {
        assert(a + b =~= a);
    }
}

/// A list of items with non-negative prices has a non-negative value.
pub proof fn lemma_value_nonneg(items: Seq<Item>)
    requires
        forall|k: int| 0 <= k < items.len() ==> sellable(#[trigger] items[k]),
    ensures
        value_of(items) >= 0,
    decreases items.len(),
{
    if items.len() > 0 {
        let rest = items.drop_last();
        assert forall|k: int| 0 <= k < rest.len() implies sellable(#[trigger] rest[k]) by {
            assert(rest[k] == items[k]);
        }
        lemma_value_nonneg(rest);
        assert(sellable(items[items.len() - 1]));
    }
}

/// What two calls in a row added is what the first added, then what the
/// second added.
pub proof fn lemma_added_twice(a: MerchantView, b: MerchantView, c: MerchantView)
    requires
        only_appended(a, b),
        only_appended(b, c),
    ensures
        only_appended(a, c),
        added_items(a, c) == added_items(a, b) + added_items(b, c),
{
    let n = a.inventory.len() as int;
    let m = b.inventory.len() as int;
    assert forall|k: int| 0 <= k < n implies c.inventory[k] == a.inventory[k] by {
        assert(c.inventory.take(m)[k] == b.inventory[k]);
        assert(b.inventory.take(n)[k] == a.inventory[k]);
    }
    assert(c.inventory.take(n) =~= a.inventory);
    assert forall|k: int| n <= k < m implies #[trigger] c.inventory[k] == b.inventory[k] by {
        assert(c.inventory.take(m)[k] == b.inventory[k]);
    }
    assert(added_items(a, c) =~= added_items(a, b) + added_items(b, c));
}

/// What was left of `allowance` before the `k`-th of the purchases `added`.
pub open spec fn left_before(allowance: int, added: Seq<Item>, k: int) -> int {
    allowance - value_of(added.take(k))
}

/// Whether `it` can be bought with `remaining` copper in a run over the
/// catalogue: copper is left, and `it` is what some draws buy from a
/// category that can be drawn and bought from.
pub open spec fn bought_from(catalog: Catalog, remaining: int, it: Item) -> bool {
    remaining > 0 && exists|s: int|
        0 <= s < catalog.stocks@.len() && viable(#[trigger] catalog.stocks@[s], remaining) && purchasable(
            catalog.stocks@[s].common@,
            catalog.stocks@[s].uncommon@,
            catalog.stocks@[s].rare@,
            remaining,
            it,
        )
}

/// Each purchase of a run over the catalogue, out of `allowance`, was made
/// as [`bought_from`] says with what was left before it.
pub open spec fn run_purchases(catalog: Catalog, allowance: int, added: Seq<Item>) -> bool {
    forall|k: int| 0 <= k < added.len() ==> bought_from(catalog, left_before(allowance, added, k), #[trigger] added[k])
}

/// Each purchase from one category, out of `allowance`, was made with copper
/// left, as what some draws buy from its common items of the subcategory
/// `sub` and its uncommon and rare items.
pub open spec fn category_purchases(stock: CategoryStock, sub: Option<Seq<char>>, allowance: int, added: Seq<Item>) -> bool {
    forall|k: int|
        0 <= k < added.len() ==> left_before(allowance, added, k) > 0 && purchasable(
            matching_subcategory(stock.common@, sub),
            stock.uncommon@,
            stock.rare@,
            left_before(allowance, added, k),
            #[trigger] added[k],
        )
}

/// The subcategory asked for, as text.
pub open spec fn sub_view(sub: Option<&str>) -> Option<Seq<char>> {
    match sub {
        Some(t) => Some(t@),
        None => None,
    }
}

/// What was left before each earlier purchase stays as it was when one
/// more is made, and before the new one it is what the earlier ones left.
proof fn lemma_left_before_push(allowance: int, added: Seq<Item>, it: Item)
    ensures
        forall|k: int|
            0 <= k <= added.len() ==> #[trigger] left_before(allowance, added.push(it), k) == left_before(
                allowance,
                added,
                k,
            ),
        left_before(allowance, added, added.len() as int) == allowance - value_of(added),
{
    assert forall|k: int| 0 <= k <= added.len() implies #[trigger] left_before(allowance, added.push(it), k)
        == left_before(allowance, added, k) by {
        assert(added.push(it).take(k) =~= added.take(k));
    }
    assert(added.take(added.len() as int) =~= added);
}

proof fn lemma_run_push(catalog: Catalog, allowance: int, added: Seq<Item>, it: Item)
    requires
        run_purchases(catalog, allowance, added),
        bought_from(catalog, allowance - value_of(added), it),
    ensures
        run_purchases(catalog, allowance, added.push(it)),
{
    lemma_left_before_push(allowance, added, it);
    let a2 = added.push(it);
    assert forall|k: int| 0 <= k < a2.len() implies bought_from(catalog, left_before(allowance, a2, k), #[trigger] a2[k]) by {
        if k < added.len() {
            assert(a2[k] == added[k]);
        }
    }
}

proof fn lemma_category_push(stock: CategoryStock, sub: Option<Seq<char>>, allowance: int, added: Seq<Item>, it: Item)
    requires
        category_purchases(stock, sub, allowance, added),
        allowance - value_of(added) > 0,
        purchasable(matching_subcategory(stock.common@, sub), stock.uncommon@, stock.rare@, allowance - value_of(added), it),
    ensures
        category_purchases(stock, sub, allowance, added.push(it)),
{
    lemma_left_before_push(allowance, added, it);
    let a2 = added.push(it);
    assert forall|k: int| 0 <= k < a2.len() implies left_before(allowance, a2, k) > 0 && purchasable(
        matching_subcategory(stock.common@, sub),
        stock.uncommon@,
        stock.rare@,
        left_before(allowance, a2, k),
        #[trigger] a2[k],
    ) by {
        if k < added.len() {
            assert(a2[k] == added[k]);
        }
    }
}

/// The items whose subcategory is `sub`, in order; all of them where no
/// subcategory is asked for.
pub open spec fn matching_subcategory(items: Seq<Item>, sub: Option<Seq<char>>) -> Seq<Item>
    decreases items.len(),
{
    if items.len() == 0 {
        Seq::empty()
    } else {
        let rest = matching_subcategory(items.drop_last(), sub);
        match sub {
            Some(t) => if items.last().item_subcategory@ == t {
                rest.push(items.last())
            } else {
                rest
            },
            None => rest.push(items.last()),
        }
    }
}

/// Each item kept is one of the items.
pub proof fn lemma_matching_subset(items: Seq<Item>, sub: Option<Seq<char>>)
    ensures
        forall|k: int|
            0 <= k < matching_subcategory(items, sub).len() ==> items.contains(
                #[trigger] matching_subcategory(items, sub)[k],
            ),
    decreases items.len(),
{
    if items.len() > 0 {
        let rest = items.drop_last();
        lemma_matching_subset(rest, sub);
        let m = matching_subcategory(items, sub);
        let r = matching_subcategory(rest, sub);
        assert forall|k: int| 0 <= k < m.len() implies items.contains(#[trigger] m[k]) by {
            if k < r.len() {
                assert(m[k] == r[k]);
                let j = choose|j: int| 0 <= j < rest.len() && rest[j] == r[k];
                assert(items[j] == rest[j]);
            } else {
                assert(m[k] == items[items.len() - 1]);
            }
        }
    }
}

/// The items whose subcategory is `sub`, in order; all of them where `sub`
/// is `None`.
pub fn keep_subcategory(items: &Vec<Item>, sub: Option<&str>) -> (r: Vec<Item>)
    ensures
        r@ == matching_subcategory(
            items@,
            match sub {
                Some(t) => Some(t@),
                None => None,
            },
        ),
{
    let ghost want = match sub {
        Some(t) => Some(t@),
        None => None,
    };
    let target: Option<String> = match sub {
        Some(t) => Some(String::from_str(t)),
        None => None,
    };
    let mut r: Vec<Item> = Vec::new();
    let mut i: usize = 0;
    while i < items.len()
        invariant
            i <= items@.len(),
            want == match target {
                Some(t) => Some(t@),
                None => None::<Seq<char>>,
            },
            r@ == matching_subcategory(items@.take(i as int), want),
        decreases items@.len() - i,
    {
        assert(items@.take(i + 1).drop_last() =~= items@.take(i as int));
        assert(items@.take(i + 1).last() == items@[i as int]);
        let keep = match &target {
            Some(t) => items[i].item_subcategory == *t,
            None => true,
        };
        if keep {
            r.push(items[i].clone());
        }
        i = i + 1;
    }
    assert(items@.take(i as int) =~= items@);
    r
}

/// One line of a shop listing: an item, how many of it are in stock, and
/// its price.
#[derive(Debug)]
pub struct StockLine {
    pub category: String,
    pub name: String,
    pub count: usize,
    pub price: Option<Price>,
}

/// Whether a line lists the given item: same category, same name.
pub open spec fn lists(line: StockLine, it: Item) -> bool {
    line.category@ == it.item_category@ && line.name@ == it.name@
}

/// How many items of the list have the given category and name.
pub open spec fn count_kind(items: Seq<Item>, category: Seq<char>, name: Seq<char>) -> nat
    decreases items.len(),
{
    if items.len() == 0 {
        0
    } else {
        count_kind(items.drop_last(), category, name) + if items.last().item_category@ == category
            && items.last().name@ == name {
            1nat
        } else {
            0nat
        }
    }
}

/// Whether two lines list the same kind of item.
pub open spec fn same_kind(a: StockLine, b: StockLine) -> bool {
    a.category@ == b.category@ && a.name@ == b.name@
}

/// Each line holds the count of its kind, at least one.
pub open spec fn listing_counts(lines: Seq<StockLine>, inv: Seq<Item>) -> bool {
    forall|j: int|
        0 <= j < lines.len() ==> (#[trigger] lines[j]).count == count_kind(inv, lines[j].category@, lines[j].name@)
            && lines[j].count >= 1
}

/// Each line holds the price of an item of its kind.
pub open spec fn listing_prices(lines: Seq<StockLine>, inv: Seq<Item>) -> bool {
    forall|j: int|
        0 <= j < lines.len() ==> exists|k: int|
            0 <= k < inv.len() && lists(#[trigger] lines[j], inv[k]) && lines[j].price == inv[k].price
}

/// Each item is listed.
pub open spec fn listing_covers(lines: Seq<StockLine>, inv: Seq<Item>) -> bool {
    forall|k: int| 0 <= k < inv.len() ==> exists|j: int| 0 <= j < lines.len() && lists(lines[j], #[trigger] inv[k])
}

/// No two lines list the same kind.
pub open spec fn listing_distinct(lines: Seq<StockLine>) -> bool {
    forall|a: int, b: int| 0 <= a < b < lines.len() ==> !same_kind(#[trigger] lines[a], #[trigger] lines[b])
}

/// The lines list the items `inv`: each line holds the count of its kind,
/// at least one, and the price of an item of that kind; each item is
/// listed; no two lines list the same kind.
#[verifier::opaque]
pub open spec fn is_listing(lines: Seq<StockLine>, inv: Seq<Item>) -> bool {
    &&& listing_counts(lines, inv)
    &&& listing_prices(lines, inv)
    &&& listing_covers(lines, inv)
    &&& listing_distinct(lines)
}

proof fn lemma_count_push(items: Seq<Item>, x: Item, category: Seq<char>, name: Seq<char>)
    ensures
        count_kind(items.push(x), category, name) == count_kind(items, category, name) + if x.item_category@
            == category && x.name@ == name {
            1nat
        } else {
            0nat
        },
{
    assert(items.push(x).drop_last() =~= items);
}

proof fn lemma_count_absent(items: Seq<Item>, category: Seq<char>, name: Seq<char>)
    requires
        forall|k: int| 0 <= k < items.len() ==> !((#[trigger] items[k]).item_category@ == category && items[k].name@ == name),
    ensures
        count_kind(items, category, name) == 0,
    decreases items.len(),
{
    if items.len() > 0 {
        let rest = items.drop_last();
        assert forall|k: int| 0 <= k < rest.len() implies !((#[trigger] rest[k]).item_category@ == category
            && rest[k].name@ == name) by {
            assert(rest[k] == items[k]);
        }
        lemma_count_absent(rest, category, name);
    }
}

/// Counting one more item on the line `f` that lists it.
proof fn lemma_listing_bump(old_lines: Seq<StockLine>, lines: Seq<StockLine>, inv: Seq<Item>, x: Item, f: int)
    requires
        is_listing(old_lines, inv),
        0 <= f < old_lines.len(),
        lists(old_lines[f], x),
        lines.len() == old_lines.len(),
        forall|t: int| 0 <= t < lines.len() && t != f ==> lines[t] == old_lines[t],
        lines[f].category == old_lines[f].category,
        lines[f].name == old_lines[f].name,
        lines[f].price == old_lines[f].price,
        lines[f].count == old_lines[f].count + 1,
    ensures
        is_listing(lines, inv.push(x)),
{
    reveal(is_listing);
    let inv2 = inv.push(x);
    assert forall|j: int| 0 <= j < lines.len() implies (#[trigger] lines[j]).count == count_kind(
        inv2,
        lines[j].category@,
        lines[j].name@,
    ) && lines[j].count >= 1 by {
        lemma_count_push(inv, x, lines[j].category@, lines[j].name@);
        if j != f {
            assert(old_lines[j] == lines[j]);
            if lists(lines[j], x) {
                if j < f {
                    assert(!same_kind(old_lines[j], old_lines[f]));
                } else {
                    assert(!same_kind(old_lines[f], old_lines[j]));
                }
            }
        }
    }
    assert forall|j: int| 0 <= j < lines.len() implies exists|k: int|
        0 <= k < inv2.len() && lists(#[trigger] lines[j], inv2[k]) && lines[j].price == inv2[k].price by {
        let k = choose|k: int| 0 <= k < inv.len() && lists(#[trigger] old_lines[j], inv[k]) && old_lines[j].price == inv[k].price;
        assert(inv2[k] == inv[k]);
    }
    assert forall|k: int| 0 <= k < inv2.len() implies exists|j: int| 0 <= j < lines.len() && lists(lines[j], #[trigger] inv2[k]) by {
        if k < inv.len() {
            assert(inv2[k] == inv[k]);
            let j = choose|j: int| 0 <= j < old_lines.len() && lists(old_lines[j], #[trigger] inv[k]);
            assert(lists(lines[j], inv2[k]));
        } else {
            assert(lists(lines[f], inv2[k]));
        }
    }
    assert forall|a: int, b: int| 0 <= a < b < lines.len() implies !same_kind(#[trigger] lines[a], #[trigger] lines[b]) by {
        assert(!same_kind(old_lines[a], old_lines[b]));
    }
}

proof fn lemma_push_counts(old_lines: Seq<StockLine>, lines: Seq<StockLine>, inv: Seq<Item>, x: Item)
    requires
        listing_counts(old_lines, inv),
        listing_covers(old_lines, inv),
        forall|t: int| 0 <= t < old_lines.len() ==> !lists(#[trigger] old_lines[t], x),
        lines.len() == old_lines.len() + 1,
        forall|t: int| 0 <= t < old_lines.len() ==> lines[t] == old_lines[t],
        lists(lines[old_lines.len() as int], x),
        lines[old_lines.len() as int].count == 1,
    ensures
        listing_counts(lines, inv.push(x)),
{
    let n = old_lines.len() as int;
    assert forall|k: int| 0 <= k < inv.len() implies !((#[trigger] inv[k]).item_category@ == x.item_category@
        && inv[k].name@ == x.name@) by {
        let t = choose|t: int| 0 <= t < old_lines.len() && lists(old_lines[t], #[trigger] inv[k]);
    }
    lemma_count_absent(inv, x.item_category@, x.name@);
    assert forall|j: int| 0 <= j < lines.len() implies (#[trigger] lines[j]).count == count_kind(
        inv.push(x),
        lines[j].category@,
        lines[j].name@,
    ) && lines[j].count >= 1 by {
        lemma_count_push(inv, x, lines[j].category@, lines[j].name@);
        if j < n {
            assert(lines[j] == old_lines[j]);
        }
    }
}

proof fn lemma_push_prices(old_lines: Seq<StockLine>, lines: Seq<StockLine>, inv: Seq<Item>, x: Item)
    requires
        listing_prices(old_lines, inv),
        lines.len() == old_lines.len() + 1,
        forall|t: int| 0 <= t < old_lines.len() ==> lines[t] == old_lines[t],
        lists(lines[old_lines.len() as int], x),
        lines[old_lines.len() as int].price == x.price,
    ensures
        listing_prices(lines, inv.push(x)),
{
    let inv2 = inv.push(x);
    let n = old_lines.len() as int;
    assert forall|j: int| 0 <= j < lines.len() implies exists|k: int|
        0 <= k < inv2.len() && lists(#[trigger] lines[j], inv2[k]) && lines[j].price == inv2[k].price by {
        if j < n {
            let k = choose|k: int| 0 <= k < inv.len() && lists(#[trigger] old_lines[j], inv[k]) && old_lines[j].price == inv[k].price;
            assert(inv2[k] == inv[k]);
            assert(lines[j] == old_lines[j]);
        } else {
            assert(inv2[inv.len() as int] == x);
        }
    }
}

proof fn lemma_push_covers(old_lines: Seq<StockLine>, lines: Seq<StockLine>, inv: Seq<Item>, x: Item)
    requires
        listing_covers(old_lines, inv),
        lines.len() == old_lines.len() + 1,
        forall|t: int| 0 <= t < old_lines.len() ==> lines[t] == old_lines[t],
        lists(lines[old_lines.len() as int], x),
    ensures
        listing_covers(lines, inv.push(x)),
{
    let inv2 = inv.push(x);
    let n = old_lines.len() as int;
    assert forall|k: int| 0 <= k < inv2.len() implies exists|j: int| 0 <= j < lines.len() && lists(lines[j], #[trigger] inv2[k]) by {
        if k < inv.len() {
            assert(inv2[k] == inv[k]);
            let j = choose|j: int| 0 <= j < old_lines.len() && lists(old_lines[j], #[trigger] inv[k]);
            assert(lines[j] == old_lines[j]);
        } else {
            assert(lists(lines[n], inv2[k]));
        }
    }
}

proof fn lemma_push_distinct(old_lines: Seq<StockLine>, lines: Seq<StockLine>, x: Item)
    requires
        listing_distinct(old_lines),
        forall|t: int| 0 <= t < old_lines.len() ==> !lists(#[trigger] old_lines[t], x),
        lines.len() == old_lines.len() + 1,
        forall|t: int| 0 <= t < old_lines.len() ==> lines[t] == old_lines[t],
        lists(lines[old_lines.len() as int], x),
    ensures
        listing_distinct(lines),
{
    let n = old_lines.len() as int;
    assert forall|a: int, b: int| 0 <= a < b < lines.len() implies !same_kind(#[trigger] lines[a], #[trigger] lines[b]) by {
        assert(lines[a] == old_lines[a]);
        if b < n {
            assert(lines[b] == old_lines[b]);
        } else {
            assert(!lists(old_lines[a], x));
        }
    }
}

/// Opening a new line for an item of a kind that no line lists yet.
proof fn lemma_listing_push(old_lines: Seq<StockLine>, lines: Seq<StockLine>, inv: Seq<Item>, x: Item)
    requires
        is_listing(old_lines, inv),
        forall|t: int| 0 <= t < old_lines.len() ==> !lists(#[trigger] old_lines[t], x),
        lines.len() == old_lines.len() + 1,
        forall|t: int| 0 <= t < old_lines.len() ==> lines[t] == old_lines[t],
        lists(lines[old_lines.len() as int], x),
        lines[old_lines.len() as int].price == x.price,
        lines[old_lines.len() as int].count == 1,
    ensures
        is_listing(lines, inv.push(x)),
{
    reveal(is_listing);
    lemma_push_counts(old_lines, lines, inv, x);
    lemma_push_prices(old_lines, lines, inv, x);
    lemma_push_covers(old_lines, lines, inv, x);
    lemma_push_distinct(old_lines, lines, x);
}

/// A merchant: its wealth in copper, its level and its inventory, in the
/// order the items were bought.
#[derive(Debug)]
pub struct Merchant {
    wealth: i32,
    level: i32,
    inventory: Vec<Item>,
}

impl View for Merchant {
    type V = MerchantView;

    closed spec fn view(&self) -> MerchantView {
        MerchantView { wealth: self.wealth as int, level: self.level as int, inventory: self.inventory@ }
    }
}

impl Merchant {
    /// Every item of the inventory has a price that fits in an `i32`.
    pub open spec fn wf(&self) -> bool {
        forall|k: int| 0 <= k < self@.inventory.len() ==> sellable(#[trigger] self@.inventory[k])
    }

    /// A merchant with `cp` copper to spend and nothing in stock.
    pub fn new(cp: i32, level: i32) -> (m: Merchant)
        ensures
            m@.wealth == cp,
            m@.level == level,
            m@.inventory.len() == 0,
            m.wf(),
    {
        Merchant { wealth: cp, level, inventory: Vec::new() }
    }

    /// A merchant with `gp` gold pieces to spend and nothing in stock.
    pub fn from_gp(gp: i32, level: i32) -> (m: Merchant)
        requires
            i32::MIN <= gp * 100 <= i32::MAX,
        ensures
            m@.wealth == gp * 100,
            m@.level == level,
            m@.inventory.len() == 0,
            m.wf(),
    {
        Merchant::new(gp * 100, level)
    }

    /// A merchant of a level from 1 to 20, with a third of the gold that
    /// the treasure table gives players of that level.
    pub fn by_level(level: i32) -> (m: Merchant)
        requires
            1 <= level <= 20,
        ensures
            m@.wealth == treasure_gp(level as int) / (MERCHANT_WEALTH_DIVISOR as int) * 100,
            m@.level == level,
            m@.inventory.len() == 0,
            m.wf(),
    {
        let table: i32 = if level == 1 {
            175
        } else if level == 2 {
            300
        } else if level == 3 {
            500
        } else if level == 4 {
            850
        } else if level == 5 {
            1350
        } else if level == 6 {
            2000
        } else if level == 7 {
            2900
        } else if level == 8 {
            4000
        } else if level == 9 {
            5700
        } else if level == 10 {
            8000
        } else if level == 11 {
            11500
        } else if level == 12 {
            16500
        } else if level == 13 {
            25000
        } else if level == 14 {
            36500
        } else if level == 15 {
            54500
        } else if level == 16 {
            82500
        } else if level == 17 {
            128000
        } else if level == 18 {
            208000
        } else if level == 19 {
            355000
        } else {
            490000
        };
        Merchant::from_gp(table / MERCHANT_WEALTH_DIVISOR, level)
    }

    /// How many items the inventory holds.
    pub fn len(&self) -> (r: usize)
        ensures
            r == self@.inventory.len(),
    {
        self.inventory.len()
    }

    /// Puts `item` at the end of the inventory and pays for it out of
    /// `remaining`, which never grows and stays non-negative.
    pub fn buy(&mut self, item: Item, remaining: &mut i32)
        requires
            old(self).wf(),
            affordable(item, *old(remaining) as int),
        ensures
            final(self).wf(),
            final(self)@.wealth == old(self)@.wealth,
            final(self)@.level == old(self)@.level,
            final(self)@.inventory == old(self)@.inventory.push(item),
            *final(remaining) == *old(remaining) - item_cost(item),
            0 <= *final(remaining) <= *old(remaining),
    {
        let cost = match &item.price {
            Some(p) => p.as_cp(),
            None => 0,
        };
        let ghost before = self@.inventory;
        let ghost it = item;
        self.inventory.push(item);
        *remaining = *remaining - cost;
        assert forall|k: int| 0 <= k < self@.inventory.len() implies sellable(#[trigger] self@.inventory[k]) by {
            if k < before.len() {
                assert(self@.inventory[k] == before[k]);
            } else {
                assert(self@.inventory[k] == it);
            }
        }
    }

    /// Spends `allowance` on the catalogue, one purchase at a time, until
    /// it is used up or no category has an item it can pay for. Each
    /// purchase is made with copper left, from a category of positive
    /// weight that can be bought from at that point. Fails with
    /// `IterationCapExceeded` where it could still pay for an item but has
    /// made `cap` purchases, or where every category it could pay for has
    /// weight zero and so is never drawn. Returns what is left.
    pub fn add_all_to_inv(&mut self, catalog: &Catalog, allowance: i32, cap: u32, rng: &mut ThreadRng) -> (r:
        Result<i32, GenerationError>)
        requires
            old(self).wf(),
        ensures
            final(self).wf(),
            only_appended(old(self)@, final(self)@),
            added_items(old(self)@, final(self)@).len() <= cap,
            forall|k: int|
                0 <= k < added_items(old(self)@, final(self)@).len() ==> in_catalog(
                    *catalog,
                    #[trigger] added_items(old(self)@, final(self)@)[k],
                ),
            allowance <= 0 ==> added_items(old(self)@, final(self)@).len() == 0,
            allowance >= 0 ==> value_of(added_items(old(self)@, final(self)@)) <= allowance,
            run_purchases(*catalog, allowance as int, added_items(old(self)@, final(self)@)),
            r matches Ok(rem) ==> rem <= allowance,
            match r {
                Ok(rem) => rem == allowance - value_of(added_items(old(self)@, final(self)@)) && exhausted(
                    *catalog,
                    rem as int,
                ),
                Err(e) => e == GenerationError::IterationCapExceeded && !exhausted(
                    *catalog,
                    allowance - value_of(added_items(old(self)@, final(self)@)),
                ) && (added_items(old(self)@, final(self)@).len() == cap || !any_viable(
                    *catalog,
                    allowance - value_of(added_items(old(self)@, final(self)@)),
                )),
            },
    {
        let ghost start = self@;
        let minimums = get_min_for_each_category(catalog);
        let mut remaining = allowance;
        let mut bought: u32 = 0;
        assert(added_items(start, self@) =~= Seq::<Item>::empty());
        assert(self@.inventory.take(start.inventory.len() as int) =~= start.inventory);
        loop
            invariant
                start == old(self)@,
                self.wf(),
                only_appended(start, self@),
                added_items(start, self@).len() == bought,
                bought <= cap,
                forall|k: int|
                    0 <= k < added_items(start, self@).len() ==> in_catalog(
                        *catalog,
                        #[trigger] added_items(start, self@)[k],
                    ),
                remaining == allowance - value_of(added_items(start, self@)),
                run_purchases(*catalog, allowance as int, added_items(start, self@)),
                allowance <= 0 ==> bought == 0,
                allowance >= 0 ==> remaining >= 0,
                minimums@.len() == catalog.stocks@.len(),
                forall|i: int|
                    0 <= i < minimums@.len() ==> crate::catalog::is_min_cost(
                        catalog.stocks@[i].common@,
                        #[trigger] minimums@[i],
                    ),
            decreases cap - bought,
        {
            proof {
                let added = added_items(start, self@);
                assert forall|k: int| 0 <= k < added.len() implies sellable(#[trigger] added[k]) by {
                    assert(added[k] == self@.inventory[start.inventory.len() + k]);
                }
                lemma_value_nonneg(added);
            }
            if remaining <= 0 {
                return Ok(remaining);
            }
            let weights = viable_weights(catalog, &minimums, remaining);
            let total = total_weight(&weights);
            if total == 0 {
                proof {
                    lemma_weight_sum(weights@);
                    assert forall|s: int| 0 <= s < catalog.stocks@.len() implies !viable(
                        #[trigger] catalog.stocks@[s],
                        remaining as int,
                    ) by {
                        assert(weights@[s] == 0);
                    }
                }
                if any_affordable(catalog, &minimums, remaining) {
                    return Err(GenerationError::IterationCapExceeded);
                }
                return Ok(remaining);
            }
            let s = pick_weighted(&weights, draw_below(rng, total));
            let stock: &CategoryStock = &catalog.stocks[s];
            assert(viable(*stock, remaining as int));
            if bought == cap {
                assert(affordable_category(catalog.stocks@[s as int], remaining as int));
                return Err(GenerationError::IterationCapExceeded);
            }
            proof {
                crate::catalog::lemma_positions_within(stock.common@, remaining as int);
                let k = choose|k: int| 0 <= k < stock.common@.len() && affordable(stock.common@[k], remaining as int);
                assert(positions_within(stock.common@, remaining as int).contains(k));
            }
            let pick = draw_purchase(&stock.common, &stock.uncommon, &stock.rare, remaining, rng);
            match pick {
                Some(item) => {
                    let ghost before = self@;
                    let ghost it = item;
                    assert(in_stock(*stock, it));
                    assert(bought_from(*catalog, remaining as int, it)) by {
                        assert(viable(catalog.stocks@[s as int], remaining as int));
                    }
                    self.buy(item, &mut remaining);
                    proof {
                        assert(added_items(start, self@) =~= added_items(start, before).push(it));
                        lemma_value_push(added_items(start, before), it);
                        lemma_run_push(*catalog, allowance as int, added_items(start, before), it);
                        assert(in_catalog(*catalog, it));
                        assert(self@.inventory.take(start.inventory.len() as int) =~= start.inventory) by {
                            assert(before.inventory.take(start.inventory.len() as int) == start.inventory);
                        }
                    }
                },
                None => {
                    return Ok(remaining);
                },
            }
            bought = bought + 1;
        }
    }

    /// Stocks the rations that open every run: one unit at a time while
    /// the rations share of the wealth is not used up, fewer than
    /// `MAX_RATIONS` are stocked and the wealth can still pay for one.
    /// Returns what is left of the wealth.
    pub fn stock_rations(&mut self, rations: &Item) -> (remaining: i32)
        requires
            old(self).wf(),
            rations.price is Some,
        ensures
            final(self).wf(),
            only_appended(old(self)@, final(self)@),
            added_items(old(self)@, final(self)@).len() == ration_units(
                rations_allowance(old(self)@.wealth),
                old(self)@.wealth,
                item_cost(*rations),
                0,
            ),
            forall|k: int|
                0 <= k < added_items(old(self)@, final(self)@).len() ==> #[trigger] added_items(
                    old(self)@,
                    final(self)@,
                )[k] == *rations,
            remaining == old(self)@.wealth - value_of(added_items(old(self)@, final(self)@)),
            remaining <= old(self)@.wealth,
            old(self)@.wealth >= 0 ==> remaining >= 0,
            old(self)@.wealth <= 0 ==> added_items(old(self)@, final(self)@).len() == 0,
    {
        let ghost start = self@;
        let price = match &rations.price {
            Some(p) => p.as_cp(),
            None => 0,
        };
        let mut allowance: i32 = if self.wealth <= 0 {
            0
        } else {
            self.wealth / RATIONS_SHARE_DIVISOR
        };
        let mut remaining: i32 = self.wealth;
        let mut count: u32 = 0;
        assert(added_items(start, self@) =~= Seq::<Item>::empty());
        assert(self@.inventory.take(start.inventory.len() as int) =~= start.inventory);
        while count < MAX_RATIONS && allowance > 0 && price <= remaining
            invariant
                start == old(self)@,
                self.wf(),
                only_appended(start, self@),
                price == item_cost(*rations),
                rations.price is Some,
                added_items(start, self@).len() == count,
                count <= MAX_RATIONS,
                forall|k: int|
                    0 <= k < added_items(start, self@).len() ==> #[trigger] added_items(start, self@)[k]
                        == *rations,
                ration_units(allowance as int, remaining as int, price as int, count as int) + count
                    == ration_units(rations_allowance(start.wealth), start.wealth, price as int, 0),
                remaining == start.wealth - value_of(added_items(start, self@)),
                remaining <= start.wealth,
                start.wealth >= 0 ==> remaining >= 0,
                start.wealth <= 0 ==> count == 0 && allowance <= 0,
            decreases MAX_RATIONS - count,
        {
            let ghost before = self@;
            self.buy(rations.clone(), &mut remaining);
            proof {
                assert(self@.inventory.take(before.inventory.len() as int) =~= before.inventory);
                lemma_added_twice(start, before, self@);
                assert(added_items(start, self@) =~= added_items(start, before).push(*rations));
                lemma_value_push(added_items(start, before), *rations);
            }
            allowance = allowance - price;
            count = count + 1;
        }
        remaining
    }

    /// Generates the inventory: stocks rations, then spends what is left of
    /// the wealth on the catalogue (see [`Merchant::add_all_to_inv`]), with
    /// at most `cap` purchases, and fails as that one does. Fails with `MissingStaple`, buying nothing,
    /// where the rations have no price. Whatever the draws, the run never
    /// spends more than the wealth, and a merchant without wealth buys
    /// nothing.
    pub fn generate_inventory(&mut self, catalog: &Catalog, rations: &Item, cap: u32) -> (r: Result<
        (),
        GenerationError,
    >)
        requires
            old(self).wf(),
        ensures
            final(self).wf(),
            only_appended(old(self)@, final(self)@),
            rations.price is None ==> r == Err::<(), GenerationError>(GenerationError::MissingStaple)
                && added_items(old(self)@, final(self)@).len() == 0,
            old(self)@.wealth <= 0 ==> added_items(old(self)@, final(self)@).len() == 0,
            old(self)@.wealth >= 0 ==> value_of(added_items(old(self)@, final(self)@)) <= old(self)@.wealth,
            rations.price is Some ==> {
                let n = ration_units(
                    rations_allowance(old(self)@.wealth),
                    old(self)@.wealth,
                    item_cost(*rations),
                    0,
                );
                let added = added_items(old(self)@, final(self)@);
                &&& n <= added.len() <= n + cap
                &&& forall|k: int| 0 <= k < n ==> #[trigger] added[k] == *rations
                &&& forall|k: int| n <= k < added.len() ==> in_catalog(*catalog, #[trigger] added[k])
                &&& run_purchases(*catalog, old(self)@.wealth - value_of(added.take(n)), added.skip(n))
                &&& match r {
                    Ok(_) => exhausted(*catalog, old(self)@.wealth - value_of(added)),
                    Err(e) => e == GenerationError::IterationCapExceeded && !exhausted(
                        *catalog,
                        old(self)@.wealth - value_of(added),
                    ) && (added.len() == n + cap || !any_viable(*catalog, old(self)@.wealth - value_of(added))),
                }
            },
    {
        let ghost start = self@;
        if rations.price.is_none() {
            assert(added_items(start, self@) =~= Seq::<Item>::empty());
            assert(self@.inventory.take(start.inventory.len() as int) =~= start.inventory);
            return Err(GenerationError::MissingStaple);
        }
        let remaining = self.stock_rations(rations);
        let ghost mid = self@;
        let mut rng = rand::thread_rng();
        let r = self.add_all_to_inv(catalog, remaining, cap, &mut rng);
        proof {
            lemma_added_twice(start, mid, self@);
            let first = added_items(start, mid);
            let second = added_items(mid, self@);
            lemma_value_concat(first, second);
            let added = added_items(start, self@);
            assert forall|k: int| 0 <= k < first.len() implies #[trigger] added[k] == *rations by {
                assert(added[k] == first[k]);
            }
            assert forall|k: int| first.len() <= k < added.len() implies in_catalog(*catalog, #[trigger] added[k]) by {
                assert(added[k] == second[k - first.len()]);
            }
            assert(added.take(first.len() as int) =~= first);
            assert(added.skip(first.len() as int) =~= second);
        }
        match r {
            Ok(_) => Ok(()),
            Err(e) => Err(e),
        }
    }

    /// The total price of the inventory, in copper.
    pub fn get_wealth_in_inv(&self) -> (r: i32)
        requires
            self.wf(),
            value_of(self@.inventory) <= i32::MAX,
        ensures
            r == value_of(self@.inventory),
    {
        let mut sum: i32 = 0;
        let mut i: usize = 0;
        while i < self.inventory.len()
            invariant
                self.wf(),
                value_of(self@.inventory) <= i32::MAX,
                i <= self@.inventory.len(),
                sum == value_of(self@.inventory.take(i as int)),
            decreases self@.inventory.len() - i,
        {
            let ghost items = self@.inventory;
            proof {
                let head = items.take(i + 1);
                let tail = items.skip(i + 1);
                assert(head.drop_last() =~= items.take(i as int));
                assert(head + tail =~= items);
                lemma_value_concat(head, tail);
                assert forall|k: int| 0 <= k < tail.len() implies sellable(#[trigger] tail[k]) by {
                    assert(tail[k] == items[i + 1 + k]);
                }
                lemma_value_nonneg(tail);
                assert(sellable(items[i as int]));
            }
            let c = match &self.inventory[i].price {
                Some(p) => p.as_cp(),
                None => 0,
            };
            sum = sum + c;
            i = i + 1;
        }
        assert(self@.inventory.take(i as int) =~= self@.inventory);
        sum
    }

    /// Buys from one category only, out of its common items of the
    /// subcategory `subcategory` (of all of them where it is `None`), with
    /// upgrades drawn from its uncommon and rare items as in a full run;
    /// each purchase is made with copper left, and only while one of those
    /// common items is affordable.
    /// Stops once `allowance` is used up, `max_count` items are bought, or
    /// no candidate is affordable. Returns what is left of the allowance.
    pub fn add_category_to_inv(
        &mut self,
        stock: &CategoryStock,
        subcategory: Option<&str>,
        allowance: i32,
        max_count: u32,
        rng: &mut ThreadRng,
    ) -> (r: i32)
        requires
            old(self).wf(),
        ensures
            final(self).wf(),
            only_appended(old(self)@, final(self)@),
            added_items(old(self)@, final(self)@).len() <= max_count,
            forall|k: int|
                0 <= k < added_items(old(self)@, final(self)@).len() ==> in_stock(
                    *stock,
                    #[trigger] added_items(old(self)@, final(self)@)[k],
                ),
            allowance <= 0 ==> added_items(old(self)@, final(self)@).len() == 0,
            r == allowance - value_of(added_items(old(self)@, final(self)@)),
            allowance >= 0 ==> r >= 0,
            r <= allowance,
            category_purchases(*stock, sub_view(subcategory), allowance as int, added_items(old(self)@, final(self)@)),
            r <= 0 || added_items(old(self)@, final(self)@).len() == max_count || positions_within(
                matching_subcategory(stock.common@, sub_view(subcategory)),
                r as int,
            ).len() == 0,
    {
        let ghost start = self@;
        let candidates = keep_subcategory(&stock.common, subcategory);
        proof {
            lemma_matching_subset(stock.common@, sub_view(subcategory));
        }
        let mut remaining = allowance;
        let mut count: u32 = 0;
        assert(added_items(start, self@) =~= Seq::<Item>::empty());
        assert(self@.inventory.take(start.inventory.len() as int) =~= start.inventory);
        while remaining > 0 && count < max_count
            invariant
                start == old(self)@,
                self.wf(),
                only_appended(start, self@),
                added_items(start, self@).len() == count,
                count <= max_count,
                candidates@ == matching_subcategory(stock.common@, sub_view(subcategory)),
                forall|k: int| 0 <= k < candidates@.len() ==> stock.common@.contains(#[trigger] candidates@[k]),
                category_purchases(*stock, sub_view(subcategory), allowance as int, added_items(start, self@)),
                forall|k: int|
                    0 <= k < added_items(start, self@).len() ==> in_stock(*stock, #[trigger] added_items(start, self@)[k]),
                remaining == allowance - value_of(added_items(start, self@)),
                remaining <= allowance,
                allowance <= 0 ==> count == 0,
                allowance >= 0 ==> remaining >= 0,
            ensures
                start == old(self)@,
                self.wf(),
                only_appended(start, self@),
                added_items(start, self@).len() == count,
                count <= max_count,
                forall|k: int|
                    0 <= k < added_items(start, self@).len() ==> in_stock(*stock, #[trigger] added_items(start, self@)[k]),
                remaining == allowance - value_of(added_items(start, self@)),
                remaining <= allowance,
                allowance <= 0 ==> count == 0,
                allowance >= 0 ==> remaining >= 0,
                category_purchases(*stock, sub_view(subcategory), allowance as int, added_items(start, self@)),
                candidates@ == matching_subcategory(stock.common@, sub_view(subcategory)),
                remaining <= 0 || count == max_count || positions_within(candidates@, remaining as int).len() == 0,
            decreases max_count - count,
        {
            match draw_purchase(&candidates, &stock.uncommon, &stock.rare, remaining, rng) {
                Some(item) => {
                    let ghost before = self@;
                    let ghost it = item;
                    assert(in_stock(*stock, it));
                    self.buy(item, &mut remaining);
                    proof {
                        assert(self@.inventory.take(before.inventory.len() as int) =~= before.inventory);
                        lemma_added_twice(start, before, self@);
                        assert(added_items(start, self@) =~= added_items(start, before).push(it));
                        lemma_value_push(added_items(start, before), it);
                        lemma_category_push(
                            *stock,
                            sub_view(subcategory),
                            allowance as int,
                            added_items(start, before),
                            it,
                        );
                    }
                },
                None => {
                    break;
                },
            }
            count = count + 1;
        }
        remaining
    }

    /// A merchant put back together from its parts, as when it is read back
    /// from storage; `None` where an item of the inventory has no price.
    pub fn from_parts(wealth: i32, level: i32, inventory: Vec<Item>) -> (r: Option<Merchant>)
        ensures
            match r {
                Some(m) => m.wf() && m@ == MerchantView {
                    wealth: wealth as int,
                    level: level as int,
                    inventory: inventory@,
                },
                None => exists|k: int| 0 <= k < inventory@.len() && inventory@[k].price is None,
            },
    {
        let mut i: usize = 0;
        while i < inventory.len()
            invariant
                i <= inventory@.len(),
                forall|k: int| 0 <= k < i ==> sellable(#[trigger] inventory@[k]),
            decreases inventory@.len() - i,
        {
            match &inventory[i].price {
                Some(p) => {
                    // reading the value shows that it fits
                    let _ = p.as_cp();
                },
                None => {
                    return None;
                },
            }
            i = i + 1;
        }
        Some(Merchant { wealth, level, inventory })
    }

    /// The wealth, in copper.
    pub fn wealth(&self) -> (r: i32)
        ensures
            r == self@.wealth,
    {
        self.wealth
    }

    /// The level.
    pub fn level(&self) -> (r: i32)
        ensures
            r == self@.level,
    {
        self.level
    }

    /// The inventory, in the order the items were bought.
    pub fn inventory(&self) -> (r: &Vec<Item>)
        ensures
            r@ == self@.inventory,
    {
        &self.inventory
    }

    /// The inventory as a shop lists it: one line for each kind of item
    /// (category and name), with the number of items of that kind and the
    /// price of one of them.
    pub fn stock_lines(&self) -> (r: Vec<StockLine>)
        ensures
            is_listing(r@, self@.inventory),
    {
        let ghost inv = self@.inventory;
        let mut lines: Vec<StockLine> = Vec::new();
        let mut i: usize = 0;
        proof {
            reveal(is_listing);
        }
        while i < self.inventory.len()
            invariant
                inv == self@.inventory,
                i <= inv.len(),
                is_listing(lines@, inv.take(i as int)),
                forall|j: int| 0 <= j < lines@.len() ==> (#[trigger] lines@[j]).count <= i,
            decreases inv.len() - i,
        {
            let x = &self.inventory[i];
            assert(inv.take(i + 1) =~= inv.take(i as int).push(*x));
            let mut found: Option<usize> = None;
            let mut j: usize = 0;
            while j < lines.len()
                invariant_except_break
                    found is None,
                invariant
                    j <= lines@.len(),
                    forall|t: int| 0 <= t < j ==> !lists(#[trigger] lines@[t], *x),
                ensures
                    found matches Some(f) ==> f < lines@.len() && lists(lines@[f as int], *x),
                    found is None ==> forall|t: int| 0 <= t < lines@.len() ==> !lists(#[trigger] lines@[t], *x),
                decreases lines@.len() - j,
            {
                if lines[j].category == x.item_category && lines[j].name == x.name {
                    found = Some(j);
                    break;
                }
                j = j + 1;
            }
            let ghost old_lines = lines@;
            match found {
                Some(f) => {
                    let c = lines[f].count + 1;
                    lines[f].count = c;
                    proof {
                        lemma_listing_bump(old_lines, lines@, inv.take(i as int), *x, f as int);
                        assert forall|t: int| 0 <= t < lines@.len() implies (#[trigger] lines@[t]).count <= i + 1 by {
                            if t != f {
                                assert(lines@[t] == old_lines[t]);
                            }
                        }
                    }
                },
                None => {
                    let line = StockLine {
                        category: x.item_category.clone(),
                        name: x.name.clone(),
                        count: 1,
                        price: match &x.price {
                            Some(p) => Some(p.clone()),
                            None => None,
                        },
                    };
                    lines.push(line);
                    proof {
                        lemma_listing_push(old_lines, lines@, inv.take(i as int), *x);
                        assert forall|t: int| 0 <= t < lines@.len() implies (#[trigger] lines@[t]).count <= i + 1 by {
                            if t < old_lines.len() {
                                assert(lines@[t] == old_lines[t]);
                            }
                        }
                    }
                },
            }
            i = i + 1;
        }
        assert(inv.take(i as int) =~= inv);
        lines
    }
}

} // verus!
