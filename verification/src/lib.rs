//! A verified engine that tiles a rectangular grid with edge-matching square
//! tiles: a tile catalog with per-kind multiplicities, a rotation-aware
//! edge-compatibility check, a constrained random walk that lays a connected
//! river, and a bounded random trial-and-error pass that fills the rest.

pub mod tile;
pub mod grid;
pub mod art;
pub mod deck;
pub mod rng;
pub mod engine;
pub mod laws;
