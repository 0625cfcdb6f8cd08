pub mod control;
pub mod error;
pub mod handshake;
pub mod publisher;
pub mod subgroup_recv;
pub mod subscribe;
pub mod subscribed;
pub mod subscriber;

pub use control::{ControlMessage, Session};
pub use error::SessionError;
pub use handshake::{select_version, server_versions};
pub use publisher::{Publisher, PublisherEvent, PublisherMessage, SubscribeOk, SubscriptionEnd, TrackStatusOk};
pub use subgroup_recv::{ObjectStart, SubgroupReceiver};
pub use subscribe::{Subscribe, SubscribeInfo, SubscribeRecv, SubscribeState, SubgroupInfo, TrackWriterMode};
pub use subscribed::{serving_path, subgroup_object, ServePath, Subscribed, SubscribedRecv, SubscribedState, TrackRequest};
pub use subscriber::{FilterType, Subscriber, SubscriberEvent, SubscriberMessage};
