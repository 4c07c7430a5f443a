pub mod contract;
pub mod error;
pub mod msg;
pub mod pending;
pub mod state;
pub mod store;
pub mod text;
pub mod timegate;
