//! Runtime core of a small terminal simulation: a component store indexed by
//! owner and type tag, and a cascading event dispatcher whose listeners run
//! the simulation's scripts against that store.

pub mod codec;
pub mod components;
pub mod game;
pub mod tile_map;
pub mod events;
pub mod scripts;
pub mod rterm;
