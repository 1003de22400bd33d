//! Rotating savings groups: members pay a fixed amount into a pool every
//! round, and each round the pool, less a platform fee, goes to one member
//! in the order in which the members joined.

pub mod membership;
pub mod registry;
pub mod savings;
