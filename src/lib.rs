//! Shop inventory generation for a tabletop role-playing game: price text is
//! normalised to copper, and a budget is spent on a catalogue of items by
//! weighted category draws, uniform item draws and rare upgrade rolls.

pub mod catalog;
pub mod item;
pub mod merchant;
pub mod price;
pub mod price_format;
mod random;

pub use catalog::{Catalog, CategoryStock};
pub use item::{CategoryColumn, DbItem, Item, ItemCategory, ItemKind, Rarity};
pub use merchant::{GenerationError, Merchant};
pub use price::{Price, PriceError};
