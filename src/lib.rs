//! Asset accounting for cross-consensus messages: single assets, canonical
//! asset lists, wildcards and the filters that combine them.

pub mod asset;
pub mod asset_list;
pub mod conversions;
pub mod location;
pub mod order;
pub mod wild;
