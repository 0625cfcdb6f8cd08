pub mod error;
pub mod track;
pub mod tracks;

pub use error::ServeError;
pub use track::{Track, TrackMode, TrackReader, TrackWriter};
pub use tracks::{FullTrackName, Tracks, TracksReader, TracksRequest, TracksState, TracksWriter};
