//! The plain-data core of the crowd simulation: the grid, entity ids, who
//! stands where, whose bed is whose, routes and the A* search that plans
//! them, the feature index, and the small decisions the brains make.

pub mod map;

pub mod uid;
pub mod occupancy;
pub mod path;
pub mod homes;
pub mod entities;
pub mod feature;
pub mod rng;
pub mod biology;
pub mod item;
pub mod identity;
pub mod inventory;
pub mod log;
pub mod brain;
pub mod moves;
pub mod nav;
pub mod keyboard;
pub mod state;
pub mod testing;
pub mod view;
pub mod walker;
