//! Risk-curated yield vault: the risk engine, the allocation planner, the
//! adapters' transaction encoding, the sentinel's bookkeeping, and the small
//! routing and configuration rules around them.
pub mod config;
pub mod domain;
pub mod gateway;
pub mod text;
