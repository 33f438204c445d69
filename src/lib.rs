//! A constant-product exchange: pools of two assets, a registry of pairs and
//! a router that chains swaps, with their accounting proved.
pub mod asset;
pub mod factory;
pub mod math;
pub mod msg;
pub mod pool;
pub mod router;
