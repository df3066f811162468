//! Stock generation for a herbalist's shop: which herbs are on the shelf, how
//! many of each, and at what price, drawn from a catalog and per-rarity tiers.
pub mod catalog;
pub mod dice;
pub mod order;
pub mod stock;
