//! Star catalog logic for a Hertzsprung-Russell diagram explorer.

pub mod text;
pub mod data;
pub mod csv;
pub mod catalog;
pub mod grid;
pub mod browser;
pub mod search;
pub mod order;
pub mod article;
pub mod display;
