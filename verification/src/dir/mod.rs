pub mod listing;

pub use listing::{ListingDelta, ListingError, ListingReader, ListingWrite, ListingWriter};
