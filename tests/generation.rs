use merchant_gen::catalog::{
    draw_purchase, get_min_for_each_category, indices_within, pick_weighted, resolve_purchase,
    resolve_upgrade, total_weight, viable_weights,
};
use merchant_gen::merchant::{keep_subcategory, DEFAULT_ITERATION_CAP};
use merchant_gen::{
    Catalog, CategoryStock, DbItem, GenerationError, Item, ItemCategory, Merchant, Price, PriceError,
    Rarity,
};

fn item(name: &str, category: &str, subcategory: &str, price: &str) -> Item {
    Item {
        name: name.to_string(),
        pfs: String::new(),
        source: String::new(),
        rarity: "Common".to_string(),
        traits: String::new(),
        item_category: category.to_string(),
        item_subcategory: subcategory.to_string(),
        level: 0,
        price: Price::parse(price).unwrap(),
        bulk: String::new(),
        usage: String::new(),
        spoilers: String::new(),
    }
}

fn rations() -> Item {
    item("Rations", "Adventuring Gear", "", "4 sp (1 week)")
}

fn stock(category: ItemCategory, weight: u32, common: Vec<Item>) -> CategoryStock {
    CategoryStock { category, weight, common, uncommon: vec![], rare: vec![] }
}

fn sample_catalog() -> Catalog {
    let weapons = CategoryStock {
        category: ItemCategory::Weapons,
        weight: 60,
        common: vec![
            item("Dagger", "Weapons", "Simple", "2 sp"),
            item("Longsword", "Weapons", "Martial", "1 gp"),
            item("Greatsword", "Weapons", "Martial", "2 gp"),
        ],
        uncommon: vec![item("Katana", "Weapons", "Martial", "2 gp")],
        rare: vec![item("Sun Blade", "Weapons", "Martial", "5 pp")],
    };
    let gear = stock(
        ItemCategory::AdventuringGear,
        25,
        vec![item("Chalk", "Adventuring Gear", "", "1 cp"), item("Rope", "Adventuring Gear", "", "5 sp")],
    );
    let vehicles = stock(ItemCategory::Vehicles, 0, vec![item("Cart", "Vehicles", "", "3 gp")]);
    Catalog { stocks: vec![weapons, gear, vehicles] }
}

fn names(items: &[Item]) -> Vec<String> {
    items.iter().map(|i| i.name.clone()).collect()
}

#[test]
fn zero_budget_buys_nothing() {
    let mut m = Merchant::new(0, 3);
    assert_eq!(m.generate_inventory(&sample_catalog(), &rations(), DEFAULT_ITERATION_CAP), Ok(()));
    assert_eq!(m.len(), 0);
}

#[test]
fn unaffordable_single_category_buys_nothing() {
    let catalog = Catalog {
        stocks: vec![stock(ItemCategory::Armor, 60, vec![item("Breastplate", "Armor", "", "8 gp")])],
    };
    let mut m = Merchant::new(0, 3);
    let mut rng = rand::thread_rng();
    assert_eq!(m.add_all_to_inv(&catalog, 799, DEFAULT_ITERATION_CAP, &mut rng), Ok(799));
    assert_eq!(m.len(), 0);
}

#[test]
fn no_upgrade_without_uncommon_or_rare() {
    let common = vec![item("Dagger", "Weapons", "", "2 sp"), item("Club", "Weapons", "", "1 cp")];
    let mut rng = rand::thread_rng();
    for roll in 0..100_000u32 {
        assert_eq!(resolve_upgrade(roll % 1000, false, false), Rarity::Common);
    }
    for _ in 0..100_000 {
        let got = draw_purchase(&common, &vec![], &vec![], 1000, &mut rng).unwrap();
        assert!(got.name == "Dagger" || got.name == "Club");
    }
}

#[test]
fn generation_never_overspends() {
    let catalog = sample_catalog();
    for wealth in [0, 1, 23, 24, 100, 960, 5800, 50_000] {
        let mut m = Merchant::new(wealth, 3);
        let r = m.generate_inventory(&catalog, &rations(), DEFAULT_ITERATION_CAP);
        assert_eq!(r, Ok(()));
        assert!(m.get_wealth_in_inv() <= wealth);
        // with a one-copper item on sale the whole wealth is spent
        assert_eq!(m.get_wealth_in_inv(), wealth);
        assert!(m.inventory().iter().all(|i| i.name != "Cart"));
    }
}

#[test]
fn rations_come_first() {
    let catalog = Catalog { stocks: vec![] };
    let mut m = Merchant::new(960, 1);
    assert_eq!(m.generate_inventory(&catalog, &rations(), DEFAULT_ITERATION_CAP), Ok(()));
    // a share of 40 copper buys one ration of 40 copper
    assert_eq!(names(m.inventory()), vec!["Rations".to_string()]);

    let mut rich = Merchant::new(100_000, 1);
    assert_eq!(rich.generate_inventory(&catalog, &rations(), DEFAULT_ITERATION_CAP), Ok(()));
    assert_eq!(rich.len(), 10);
    assert_eq!(rich.get_wealth_in_inv(), 400);
}

#[test]
fn rations_never_overspend_a_small_wealth() {
    let mut m = Merchant::new(30, 1);
    let left = m.stock_rations(&rations());
    assert_eq!(m.len(), 0);
    assert_eq!(left, 30);
}

#[test]
fn unpriced_rations_are_refused() {
    let mut staple = rations();
    staple.price = None;
    let mut m = Merchant::new(1000, 1);
    assert_eq!(
        m.generate_inventory(&sample_catalog(), &staple, DEFAULT_ITERATION_CAP),
        Err(GenerationError::MissingStaple)
    );
    assert_eq!(m.len(), 0);
}

#[test]
fn free_items_hit_the_cap() {
    let catalog = Catalog { stocks: vec![stock(ItemCategory::Other, 1, vec![item("Pebble", "Other", "", "0 cp")])] };
    let mut m = Merchant::new(0, 1);
    let mut rng = rand::thread_rng();
    assert_eq!(m.add_all_to_inv(&catalog, 50, 25, &mut rng), Err(GenerationError::IterationCapExceeded));
    assert_eq!(m.len(), 25);
}

#[test]
fn budget_only_goes_down() {
    let catalog = sample_catalog();
    let mut m = Merchant::new(0, 1);
    let mut rng = rand::thread_rng();
    let left = m.add_all_to_inv(&catalog, 437, DEFAULT_ITERATION_CAP, &mut rng).unwrap();
    assert_eq!(left, 0);
    assert_eq!(m.get_wealth_in_inv(), 437);

    let mut remaining = 250;
    let mut n = Merchant::new(0, 1);
    n.buy(item("Longsword", "Weapons", "", "1 gp"), &mut remaining);
    assert_eq!(remaining, 150);
    n.buy(item("Chalk", "Adventuring Gear", "", "1 cp"), &mut remaining);
    assert_eq!(remaining, 149);
    assert_eq!(n.len(), 2);
}

#[test]
fn single_category_respects_count_and_subcategory() {
    let catalog = sample_catalog();
    let mut m = Merchant::new(0, 1);
    let mut rng = rand::thread_rng();
    let left = m.add_category_to_inv(&catalog.stocks[0], Some("Simple"), 10_000, 5, &mut rng);
    assert_eq!(m.len(), 5);
    assert!(m.inventory().iter().all(|i| ["Dagger", "Katana", "Sun Blade"].contains(&i.name.as_str())));
    assert_eq!(left, 10_000 - m.get_wealth_in_inv());

    let mut poor = Merchant::new(0, 1);
    assert_eq!(poor.add_category_to_inv(&catalog.stocks[0], Some("Martial"), 50, 5, &mut rng), 50);
    assert_eq!(poor.len(), 0);
}

#[test]
fn subcategory_filter_keeps_order() {
    let catalog = sample_catalog();
    let kept = keep_subcategory(&catalog.stocks[0].common, Some("Martial"));
    assert_eq!(names(&kept), vec!["Longsword".to_string(), "Greatsword".to_string()]);
    assert_eq!(keep_subcategory(&catalog.stocks[0].common, None).len(), 3);
    assert_eq!(keep_subcategory(&catalog.stocks[0].common, Some("Exotic")).len(), 0);
}

#[test]
fn cheapest_common_of_each_category() {
    let mut catalog = sample_catalog();
    catalog.stocks.push(stock(ItemCategory::Services, 0, vec![]));
    let mut unpriced = item("Favor", "Other", "", "");
    unpriced.price = None;
    catalog.stocks.push(stock(ItemCategory::Other, 1, vec![unpriced]));
    assert_eq!(get_min_for_each_category(&catalog), vec![Some(20), Some(1), Some(300), None, None]);
}

#[test]
fn viable_categories_keep_their_weight() {
    let catalog = sample_catalog();
    let mins = get_min_for_each_category(&catalog);
    assert_eq!(viable_weights(&catalog, &mins, 1000), vec![60, 25, 0]);
    assert_eq!(viable_weights(&catalog, &mins, 10), vec![0, 25, 0]);
    assert_eq!(viable_weights(&catalog, &mins, 0), vec![0, 0, 0]);
}

#[test]
fn weighted_pick_follows_running_sum() {
    let w = vec![0, 3, 2];
    assert_eq!(total_weight(&w), 5);
    let picks: Vec<usize> = (0..5).map(|r| pick_weighted(&w, r)).collect();
    assert_eq!(picks, vec![1, 1, 1, 2, 2]);
}

#[test]
fn upgrade_rolls() {
    assert_eq!(resolve_upgrade(0, true, true), Rarity::Rare);
    assert_eq!(resolve_upgrade(0, true, false), Rarity::Uncommon);
    assert_eq!(resolve_upgrade(1, true, true), Rarity::Uncommon);
    assert_eq!(resolve_upgrade(4, true, true), Rarity::Uncommon);
    assert_eq!(resolve_upgrade(5, true, true), Rarity::Common);
    assert_eq!(resolve_upgrade(0, false, false), Rarity::Common);
}

#[test]
fn purchase_resolution() {
    let s = &sample_catalog().stocks[0];
    let pick = |remaining, item_roll, upgrade_roll, pick_roll| {
        resolve_purchase(&s.common, &s.uncommon, &s.rare, remaining, item_roll, upgrade_roll, pick_roll)
            .map(|i| i.name)
    };
    assert_eq!(pick(150, 0, 999, 0), Some("Dagger".to_string()));
    assert_eq!(pick(150, 1, 999, 0), Some("Longsword".to_string()));
    assert_eq!(pick(150, 2, 999, 0), Some("Dagger".to_string()));
    assert_eq!(pick(300, 0, 3, 0), Some("Katana".to_string()));
    // the rare upgrade costs more than is left: the common item is kept
    assert_eq!(pick(300, 2, 0, 0), Some("Greatsword".to_string()));
    assert_eq!(pick(5000, 2, 0, 0), Some("Sun Blade".to_string()));
    assert_eq!(pick(10, 0, 0, 0), None);
    assert_eq!(indices_within(&s.common, 150), vec![0, 1]);
}

#[test]
fn merchant_wealth_by_level() {
    assert_eq!(Merchant::by_level(1).wealth(), 5800);
    assert_eq!(Merchant::by_level(20).wealth(), 16_333_300);
    assert_eq!(Merchant::by_level(7).level(), 7);
    assert_eq!(Merchant::from_gp(12, 2).wealth(), 1200);
}

#[test]
fn rows_become_items() {
    let row = DbItem {
        name: "Bricks".to_string(),
        pfs: "Standard".to_string(),
        source: "Core".to_string(),
        rarity: "Common".to_string(),
        traits: String::new(),
        item_category: "Trade Goods".to_string(),
        item_subcategory: String::new(),
        level: 0,
        price: "1 sp, 7 cp (per 1,000 bricks)".to_string(),
        bulk: "L".to_string(),
        usage: String::new(),
        spoilers: String::new(),
    };
    let it = Item::from_row(row).unwrap();
    assert_eq!(it.name, "Bricks");
    assert_eq!(it.price.as_ref().unwrap().as_cp(), 17);

    let bad = DbItem { price: "Varies".to_string(), ..empty_row() };
    assert_eq!(Item::from_row(bad).unwrap_err(), PriceError::UnsplittableToken);
    assert!(Item::from_row(empty_row()).unwrap().price.is_none());
}

fn empty_row() -> DbItem {
    DbItem {
        name: String::new(),
        pfs: String::new(),
        source: String::new(),
        rarity: String::new(),
        traits: String::new(),
        item_category: String::new(),
        item_subcategory: String::new(),
        level: 0,
        price: String::new(),
        bulk: String::new(),
        usage: String::new(),
        spoilers: String::new(),
    }
}

#[test]
fn merchant_rebuilt_from_parts() {
    let m = Merchant::from_parts(500, 2, vec![rations(), rations()]).unwrap();
    assert_eq!(m.get_wealth_in_inv(), 80);
    let mut free = rations();
    free.price = None;
    assert!(Merchant::from_parts(500, 2, vec![free]).is_none());
}

#[test]
fn category_labels_and_weights() {
    assert_eq!(ItemCategory::AdventuringGear.as_str(), "Adventuring Gear");
    assert_eq!(ItemCategory::Weapons.weight(), 60);
    assert_eq!(ItemCategory::Snares.weight(), 1);
    assert_eq!(ItemCategory::Vehicles.weight(), 0);
    assert_eq!(ItemCategory::all().len(), 36);
    assert_eq!(Rarity::Uncommon.as_str(), "Uncommon");
}

#[test]
fn listing_groups_by_category_and_name() {
    let inventory = vec![
        rations(),
        item("Dagger", "Weapons", "", "2 sp"),
        rations(),
        item("Dagger", "Adventuring Gear", "", "2 sp"),
        rations(),
    ];
    let m = Merchant::from_parts(1000, 1, inventory).unwrap();
    let lines = m.stock_lines();
    let got: Vec<(String, String, usize, i32)> = lines
        .iter()
        .map(|l| (l.category.clone(), l.name.clone(), l.count, l.price.as_ref().unwrap().as_cp()))
        .collect();
    assert_eq!(
        got,
        vec![
            ("Adventuring Gear".to_string(), "Rations".to_string(), 3, 40),
            ("Weapons".to_string(), "Dagger".to_string(), 1, 20),
            ("Adventuring Gear".to_string(), "Dagger".to_string(), 1, 20),
        ]
    );
    assert!(Merchant::new(10, 1).stock_lines().is_empty());
}

#[test]
fn unweighted_categories_are_reported() {
    let catalog = Catalog {
        stocks: vec![
            stock(ItemCategory::Vehicles, 0, vec![item("Cart", "Vehicles", "", "3 gp")]),
            stock(ItemCategory::Services, 0, vec![item("Guide", "Services", "", "2 sp")]),
        ],
    };
    let mut m = Merchant::new(0, 1);
    let mut rng = rand::thread_rng();
    assert_eq!(
        m.add_all_to_inv(&catalog, 500, DEFAULT_ITERATION_CAP, &mut rng),
        Err(GenerationError::IterationCapExceeded)
    );
    assert_eq!(m.len(), 0);
    // nothing the budget can pay for: the run simply ends
    assert_eq!(m.add_all_to_inv(&catalog, 10, DEFAULT_ITERATION_CAP, &mut rng), Ok(10));

    let mut g = Merchant::new(500, 1);
    let staple = item("Rations", "Adventuring Gear", "", "1 cp");
    assert_eq!(
        g.generate_inventory(&catalog, &staple, DEFAULT_ITERATION_CAP),
        Err(GenerationError::IterationCapExceeded)
    );
    assert!(g.inventory().iter().all(|i| i.name == "Rations"));
}

#[test]
fn zero_cap_with_nothing_affordable_is_no_failure() {
    let mut m = Merchant::new(0, 1);
    assert_eq!(m.generate_inventory(&sample_catalog(), &rations(), 0), Ok(()));
    assert_eq!(m.len(), 0);
}
