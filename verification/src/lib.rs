//! Account client and user-directory logic of a Marmot messaging app.

pub mod collections;
pub mod order;
pub mod text;
pub mod client;
pub mod error;
pub mod ids;
pub mod directory;
