//! Oracles that judge the observable behaviour of distributed protocol
//! implementations run in a simulated network: delivery guarantees, broadcast
//! properties, membership convergence, quorum-store replies and load scaling, with
//! the scenario plans and fault choices that exercise them.

pub mod broadcast;
pub mod broadcast_scenarios;
pub mod causal;
pub mod causal_scenarios;
pub mod chaos;
pub mod delivery;
pub mod membership;
pub mod membership_scenarios;
pub mod placement;
pub mod plan;
pub mod random;
pub mod scaling;
pub mod scenario;
pub mod script;
pub mod store;
pub mod store_scenarios;
pub mod text;
pub mod trace;
