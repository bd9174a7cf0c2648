//! Verified core of a grocery price comparison service: price-list parsing,
//! product search ranking, and the bookkeeping of shopping-list tasks.

pub mod api;
pub mod archive;
pub mod catalog;
pub mod columns;
pub mod gemini;
pub mod links;
pub mod pricelist;
pub mod search;
pub mod stores;
pub mod sync;
pub mod text;
pub mod todoist;
pub mod units;
pub mod ui;
