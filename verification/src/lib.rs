//! A household cooking-book library: ingredients classified by grocery
//! department and preferred store, recipes with quantities and tags, and a
//! shopping list that serializes to JSON grouped by store and department.
//!
//! The library is pure: it parses records and produces JSON and record text,
//! while callers own all file and network traffic.

pub mod group;
pub mod ingredient;
pub mod numeral;
pub mod recipe;
pub mod records;
pub mod shopping_list;
pub mod store;
pub mod text;
