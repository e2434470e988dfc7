pub mod checkout;
pub mod clone;
pub mod filesystem;
pub mod pull;
pub mod require;
pub mod terminal;
