//! Staking keeper: an account mirror of reward pools and user positions, the
//! decision caches derived from it, the subscription filters that keep it
//! current, and the scheduler that decides when rounds are resolved and stakes
//! are claimed.

pub mod address;
pub mod bootstrap;
pub mod discriminator;
pub mod events;
pub mod filters;
pub mod mirror;
pub mod model;
pub mod prices;
pub mod scheduler;
pub mod supervisor;
