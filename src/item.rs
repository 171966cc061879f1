//! The catalogue's records: items, their categories and rarities.
use vstd::prelude::*;

use crate::price::{Coins, Price, PriceError, parse_text};

verus! {

/// The closed set of item kinds of the catalogue.
#[derive(Debug, Clone, Copy, PartialEq, Eq, Structural, Hash)]
pub enum ItemCategory {
    Vehicles,
    Weapons,
    AdventuringGear,
    AlchemicalItems,
    Services,
    TradeGoods,
    AnimalsandGear,
    Materials,
    Armor,
    AssistiveItems,
    Adjustments,
    Shields,
    Other,
    Customizations,
    Consumables,
    Snares,
    HeldItems,
    WornItems,
    Grafts,
    Tattoos,
    SiegeWeapons,
    Runes,
    Artifacts,
    CursedItems,
    Spellhearts,
    Wands,
    Staves,
    IntelligentItems,
    Contracts,
    Relics,
    Grimoires,
    Structures,
    Censer,
    Figurehead,
    BlightedBoons,
    HighTech,
}

/// Another name for [`ItemCategory`], the kinds of item.
pub type ItemKind = ItemCategory;

/// How many categories there are.
pub const CATEGORY_COUNT: usize = 36;

/// The label under which a category is stored in the catalogue.
pub open spec fn category_label(c: ItemCategory) -> Seq<char> {
    match c {
        ItemCategory::Vehicles => "Vehicles"@,
        ItemCategory::Weapons => "Weapons"@,
        ItemCategory::AdventuringGear => "Adventuring Gear"@,
        ItemCategory::AlchemicalItems => "Alchemical Items"@,
        ItemCategory::Services => "Services"@,
        ItemCategory::TradeGoods => "Trade Goods"@,
        ItemCategory::AnimalsandGear => "Animals and Gear"@,
        ItemCategory::Materials => "Materials"@,
        ItemCategory::Armor => "Armor"@,
        ItemCategory::AssistiveItems => "Assistive Items"@,
        ItemCategory::Adjustments => "Adjustments"@,
        ItemCategory::Shields => "Shields"@,
        ItemCategory::Other => "Other"@,
        ItemCategory::Customizations => "Customizations"@,
        ItemCategory::Consumables => "Consumables"@,
        ItemCategory::Snares => "Snares"@,
        ItemCategory::HeldItems => "Held Items"@,
        ItemCategory::WornItems => "Worn Items"@,
        ItemCategory::Grafts => "Grafts"@,
        ItemCategory::Tattoos => "Tattoos"@,
        ItemCategory::SiegeWeapons => "Siege Weapons"@,
        ItemCategory::Runes => "Runes"@,
        ItemCategory::Artifacts => "Artifacts"@,
        ItemCategory::CursedItems => "Cursed Items"@,
        ItemCategory::Spellhearts => "Spellhearts"@,
        ItemCategory::Wands => "Wands"@,
        ItemCategory::Staves => "Staves"@,
        ItemCategory::IntelligentItems => "Intelligent Items"@,
        ItemCategory::Contracts => "Contracts"@,
        ItemCategory::Relics => "Relics"@,
        ItemCategory::Grimoires => "Grimoires"@,
        ItemCategory::Structures => "Structures"@,
        ItemCategory::Censer => "Censer"@,
        ItemCategory::Figurehead => "Figurehead"@,
        ItemCategory::BlightedBoons => "Blighted Boons"@,
        ItemCategory::HighTech => "HighTech"@,
    }
}

/// The default selection weight of a category: how likely a draw is to
/// land on it, relative to the others. Zero means never.
pub open spec fn category_weight(c: ItemCategory) -> nat {
    match c {
        ItemCategory::Vehicles => 0,
        ItemCategory::Weapons => 60,
        ItemCategory::AdventuringGear => 25,
        ItemCategory::AlchemicalItems => 25,
        ItemCategory::Services => 0,
        ItemCategory::TradeGoods => 25,
        ItemCategory::AnimalsandGear => 0,
        ItemCategory::Materials => 25,
        ItemCategory::Armor => 60,
        ItemCategory::AssistiveItems => 1,
        ItemCategory::Adjustments => 1,
        ItemCategory::Shields => 25,
        ItemCategory::Other => 1,
        ItemCategory::Customizations => 1,
        ItemCategory::Consumables => 50,
        ItemCategory::Snares => 1,
        ItemCategory::HeldItems => 25,
        ItemCategory::WornItems => 25,
        ItemCategory::Grafts => 12,
        ItemCategory::Tattoos => 4,
        ItemCategory::SiegeWeapons => 0,
        ItemCategory::Runes => 10,
        ItemCategory::Artifacts => 0,
        ItemCategory::CursedItems => 0,
        ItemCategory::Spellhearts => 10,
        ItemCategory::Wands => 60,
        ItemCategory::Staves => 60,
        ItemCategory::IntelligentItems => 0,
        ItemCategory::Contracts => 0,
        ItemCategory::Relics => 0,
        ItemCategory::Grimoires => 10,
        ItemCategory::Structures => 3,
        ItemCategory::Censer => 3,
        ItemCategory::Figurehead => 3,
        ItemCategory::BlightedBoons => 0,
        ItemCategory::HighTech => 0,
    }
}

/// The position of a category in declaration order.
pub open spec fn category_index(c: ItemCategory) -> int {
    match c {
        ItemCategory::Vehicles => 0,
        ItemCategory::Weapons => 1,
        ItemCategory::AdventuringGear => 2,
        ItemCategory::AlchemicalItems => 3,
        ItemCategory::Services => 4,
        ItemCategory::TradeGoods => 5,
        ItemCategory::AnimalsandGear => 6,
        ItemCategory::Materials => 7,
        ItemCategory::Armor => 8,
        ItemCategory::AssistiveItems => 9,
        ItemCategory::Adjustments => 10,
        ItemCategory::Shields => 11,
        ItemCategory::Other => 12,
        ItemCategory::Customizations => 13,
        ItemCategory::Consumables => 14,
        ItemCategory::Snares => 15,
        ItemCategory::HeldItems => 16,
        ItemCategory::WornItems => 17,
        ItemCategory::Grafts => 18,
        ItemCategory::Tattoos => 19,
        ItemCategory::SiegeWeapons => 20,
        ItemCategory::Runes => 21,
        ItemCategory::Artifacts => 22,
        ItemCategory::CursedItems => 23,
        ItemCategory::Spellhearts => 24,
        ItemCategory::Wands => 25,
        ItemCategory::Staves => 26,
        ItemCategory::IntelligentItems => 27,
        ItemCategory::Contracts => 28,
        ItemCategory::Relics => 29,
        ItemCategory::Grimoires => 30,
        ItemCategory::Structures => 31,
        ItemCategory::Censer => 32,
        ItemCategory::Figurehead => 33,
        ItemCategory::BlightedBoons => 34,
        ItemCategory::HighTech => 35,
    }
}

impl ItemCategory {
    /// The catalogue label of this category.
    pub fn as_str(&self) -> (r: &'static str)
        ensures
            r@ == category_label(*self),
    {
        match self {
            ItemCategory::Vehicles => "Vehicles",
            ItemCategory::Weapons => "Weapons",
            ItemCategory::AdventuringGear => "Adventuring Gear",
            ItemCategory::AlchemicalItems => "Alchemical Items",
            ItemCategory::Services => "Services",
            ItemCategory::TradeGoods => "Trade Goods",
            ItemCategory::AnimalsandGear => "Animals and Gear",
            ItemCategory::Materials => "Materials",
            ItemCategory::Armor => "Armor",
            ItemCategory::AssistiveItems => "Assistive Items",
            ItemCategory::Adjustments => "Adjustments",
            ItemCategory::Shields => "Shields",
            ItemCategory::Other => "Other",
            ItemCategory::Customizations => "Customizations",
            ItemCategory::Consumables => "Consumables",
            ItemCategory::Snares => "Snares",
            ItemCategory::HeldItems => "Held Items",
            ItemCategory::WornItems => "Worn Items",
            ItemCategory::Grafts => "Grafts",
            ItemCategory::Tattoos => "Tattoos",
            ItemCategory::SiegeWeapons => "Siege Weapons",
            ItemCategory::Runes => "Runes",
            ItemCategory::Artifacts => "Artifacts",
            ItemCategory::CursedItems => "Cursed Items",
            ItemCategory::Spellhearts => "Spellhearts",
            ItemCategory::Wands => "Wands",
            ItemCategory::Staves => "Staves",
            ItemCategory::IntelligentItems => "Intelligent Items",
            ItemCategory::Contracts => "Contracts",
            ItemCategory::Relics => "Relics",
            ItemCategory::Grimoires => "Grimoires",
            ItemCategory::Structures => "Structures",
            ItemCategory::Censer => "Censer",
            ItemCategory::Figurehead => "Figurehead",
            ItemCategory::BlightedBoons => "Blighted Boons",
            ItemCategory::HighTech => "HighTech",
        }
    }

    /// The default selection weight of this category.
    pub fn weight(&self) -> (r: u32)
        ensures
            r == category_weight(*self),
    {
        match self {
            ItemCategory::Vehicles => 0,
            ItemCategory::Weapons => 60,
            ItemCategory::AdventuringGear => 25,
            ItemCategory::AlchemicalItems => 25,
            ItemCategory::Services => 0,
            ItemCategory::TradeGoods => 25,
            ItemCategory::AnimalsandGear => 0,
            ItemCategory::Materials => 25,
            ItemCategory::Armor => 60,
            ItemCategory::AssistiveItems => 1,
            ItemCategory::Adjustments => 1,
            ItemCategory::Shields => 25,
            ItemCategory::Other => 1,
            ItemCategory::Customizations => 1,
            ItemCategory::Consumables => 50,
            ItemCategory::Snares => 1,
            ItemCategory::HeldItems => 25,
            ItemCategory::WornItems => 25,
            ItemCategory::Grafts => 12,
            ItemCategory::Tattoos => 4,
            ItemCategory::SiegeWeapons => 0,
            ItemCategory::Runes => 10,
            ItemCategory::Artifacts => 0,
            ItemCategory::CursedItems => 0,
            ItemCategory::Spellhearts => 10,
            ItemCategory::Wands => 60,
            ItemCategory::Staves => 60,
            ItemCategory::IntelligentItems => 0,
            ItemCategory::Contracts => 0,
            ItemCategory::Relics => 0,
            ItemCategory::Grimoires => 10,
            ItemCategory::Structures => 3,
            ItemCategory::Censer => 3,
            ItemCategory::Figurehead => 3,
            ItemCategory::BlightedBoons => 0,
            ItemCategory::HighTech => 0,
        }
    }

    /// Every category, in declaration order.
    pub fn all() -> (v: Vec<ItemCategory>)
        ensures
            v@.len() == CATEGORY_COUNT,
            forall|c: ItemCategory| v@[category_index(c)] == c,
    {
        let mut v: Vec<ItemCategory> = Vec::new();
        v.push(ItemCategory::Vehicles);
        v.push(ItemCategory::Weapons);
        v.push(ItemCategory::AdventuringGear);
        v.push(ItemCategory::AlchemicalItems);
        v.push(ItemCategory::Services);
        v.push(ItemCategory::TradeGoods);
        v.push(ItemCategory::AnimalsandGear);
        v.push(ItemCategory::Materials);
        v.push(ItemCategory::Armor);
        v.push(ItemCategory::AssistiveItems);
        v.push(ItemCategory::Adjustments);
        v.push(ItemCategory::Shields);
        v.push(ItemCategory::Other);
        v.push(ItemCategory::Customizations);
        v.push(ItemCategory::Consumables);
        v.push(ItemCategory::Snares);
        v.push(ItemCategory::HeldItems);
        v.push(ItemCategory::WornItems);
        v.push(ItemCategory::Grafts);
        v.push(ItemCategory::Tattoos);
        v.push(ItemCategory::SiegeWeapons);
        v.push(ItemCategory::Runes);
        v.push(ItemCategory::Artifacts);
        v.push(ItemCategory::CursedItems);
        v.push(ItemCategory::Spellhearts);
        v.push(ItemCategory::Wands);
        v.push(ItemCategory::Staves);
        v.push(ItemCategory::IntelligentItems);
        v.push(ItemCategory::Contracts);
        v.push(ItemCategory::Relics);
        v.push(ItemCategory::Grimoires);
        v.push(ItemCategory::Structures);
        v.push(ItemCategory::Censer);
        v.push(ItemCategory::Figurehead);
        v.push(ItemCategory::BlightedBoons);
        v.push(ItemCategory::HighTech);
        v
    }
}

/// How hard an item is to come by.
#[derive(Debug, Clone, Copy, PartialEq, Eq, Structural)]
pub enum Rarity {
    Common,
    Uncommon,
    Rare,
}

/// The label under which a rarity is stored in the catalogue.
pub open spec fn rarity_label(r: Rarity) -> Seq<char> {
    match r {
        Rarity::Common => "Common"@,
        Rarity::Uncommon => "Uncommon"@,
        Rarity::Rare => "Rare"@,
    }
}

impl Rarity {
    /// The catalogue label of this rarity.
    pub fn as_str(&self) -> (r: &'static str)
        ensures
            r@ == rarity_label(*self),
    {
        match self {
            Rarity::Common => "Common",
            Rarity::Uncommon => "Uncommon",
            Rarity::Rare => "Rare",
        }
    }
}

/// An item of the catalogue, with its price read. An item without a price
/// is never bought.
#[derive(Debug)]
pub struct Item {
    pub name: String,
    pub pfs: String,
    pub source: String,
    pub rarity: String,
    pub traits: String,
    pub item_category: String,
    pub item_subcategory: String,
    pub level: i32,
    pub price: Option<Price>,
    pub bulk: String,
    pub usage: String,
    pub spoilers: String,
}

/// A row of the catalogue as it is stored: every field is text but the level.
#[derive(Debug)]
pub struct DbItem {
    pub name: String,
    pub pfs: String,
    pub source: String,
    pub rarity: String,
    pub traits: String,
    pub item_category: String,
    pub item_subcategory: String,
    pub level: i32,
    pub price: String,
    pub bulk: String,
    pub usage: String,
    pub spoilers: String,
}

/// One value of the category column of the catalogue.
#[derive(Debug)]
pub struct CategoryColumn {
    pub item_category: String,
}

/// The price of an item in copper; an item without a price counts as zero.
pub open spec fn item_cost(it: Item) -> int {
    match it.price {
        Some(p) => p@.coins.copper(),
        None => 0,
    }
}

/// Whether an item has a price of at most `budget` copper.
pub open spec fn affordable(it: Item, budget: int) -> bool {
    it.price is Some && item_cost(it) <= budget
}

fn clone_price(p: &Option<Price>) -> (r: Option<Price>)
    ensures
        r == *p,
{
    match p {
        Some(x) => Some(x.clone()),
        None => None,
    }
}

impl Clone for Item {
    fn clone(&self) -> (r: Item)
        ensures
            r == *self,
    {
        Item {
            name: self.name.clone(),
            pfs: self.pfs.clone(),
            source: self.source.clone(),
            rarity: self.rarity.clone(),
            traits: self.traits.clone(),
            item_category: self.item_category.clone(),
            item_subcategory: self.item_subcategory.clone(),
            level: self.level,
            price: clone_price(&self.price),
            bulk: self.bulk.clone(),
            usage: self.usage.clone(),
            spoilers: self.spoilers.clone(),
        }
    }
}

impl Item {
    /// The item that a catalogue row describes, its price text read; the
    /// row is refused, with the reason, where its price text cannot be read.
    pub fn from_row(row: DbItem) -> (r: Result<Item, PriceError>)
        ensures
            match r {
                Ok(it) => {
                    &&& it.name == row.name
                    &&& it.pfs == row.pfs
                    &&& it.source == row.source
                    &&& it.rarity == row.rarity
                    &&& it.traits == row.traits
                    &&& it.item_category == row.item_category
                    &&& it.item_subcategory == row.item_subcategory
                    &&& it.level == row.level
                    &&& it.bulk == row.bulk
                    &&& it.usage == row.usage
                    &&& it.spoilers == row.spoilers
                    &&& match it.price {
                        None => parse_text(row.price@) == Ok::<Option<Coins>, PriceError>(None),
                        Some(p) => p@.text == row.price@ && parse_text(row.price@) == Ok::<
                            Option<Coins>,
                            PriceError,
                        >(Some(p@.coins)),
                    }
                },
                Err(e) => parse_text(row.price@) == Err::<Option<Coins>, PriceError>(e),
            },
    {
        let price = match Price::parse(row.price.as_str()) {
            Ok(p) => p,
            Err(e) => {
                return Err(e);
            },
        };
        Ok(
            Item {
                name: row.name,
                pfs: row.pfs,
                source: row.source,
                rarity: row.rarity,
                traits: row.traits,
                item_category: row.item_category,
                item_subcategory: row.item_subcategory,
                level: row.level,
                price,
                bulk: row.bulk,
                usage: row.usage,
                spoilers: row.spoilers,
            },
        )
    }
}

} // verus!
