pub mod adapters;
pub mod dpga;
pub mod engine;
pub mod score;
pub mod sentinel;
