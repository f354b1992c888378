//! An in-memory URL-shortening registry: short, URL-safe identifiers are
//! generated at random, mapped to destination URLs, and resolved by exact
//! match. The mapping only ever grows, and an identifier, once assigned,
//! keeps its destination for the life of the store.

pub mod errors;
pub mod ids;
pub mod laws;
pub mod messages;
pub mod store;

pub use errors::LinkError;
pub use ids::{ID_SPACE, SHORT_ID_LEN};
pub use messages::success_message;
pub use store::LinkStore;
