pub mod coding;
pub mod data;
pub mod dir;
pub mod message;
pub mod mlog;
pub mod relay;
pub mod serve;
pub mod session;
pub mod setup;
