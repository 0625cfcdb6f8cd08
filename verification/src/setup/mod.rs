pub mod client;
pub mod role;
pub mod transport;
pub mod version;

pub use client::Client;
pub use role::Role;
pub use transport::{moq_alpn, transport_for_alpn, transport_for_scheme, UrlTransport};
pub use version::{Version, Versions, DRAFT_06, DRAFT_14};
