pub mod local;
pub mod producer;

pub use local::{Locals, Registration};
pub use producer::{serve_subscribe_local, serve_track_status_local};
