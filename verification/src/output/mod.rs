//! Where decoded input goes.
pub mod delivery;
pub mod dump;
pub mod laws;
pub mod pipe;
