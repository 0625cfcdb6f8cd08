pub mod announce;
pub mod announce_cancel;
pub mod announce_ok;
pub mod fetch_cancel;
pub mod fetch_error;
pub mod fetch_ok;
pub mod max_subscribe_id;
pub mod subscribe_done;
pub mod subscribe_namespace;
pub mod subscribe_namespace_error;
pub mod unannounce;
pub mod unsubscribe_namespace;

pub use announce::Announce;
pub use announce_cancel::AnnounceCancel;
pub use announce_ok::AnnounceOk;
pub use fetch_cancel::FetchCancel;
pub use fetch_error::FetchError;
pub use fetch_ok::FetchOk;
pub use max_subscribe_id::MaxSubscribeId;
pub use subscribe_done::SubscribeDone;
pub use subscribe_namespace::SubscribeNamespace;
pub use subscribe_namespace_error::SubscribeNamespaceError;
pub use unannounce::Unannounce;
pub use unsubscribe_namespace::UnsubscribeNamespace;
pub mod fetch;
pub mod fetch_type;
pub mod group_order;

pub use fetch::Fetch;
pub use fetch_type::FetchType;
pub use group_order::GroupOrder;
