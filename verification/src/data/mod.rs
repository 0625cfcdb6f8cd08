pub mod datagram;
pub mod header;
pub mod object_status;
pub mod subgroup;

pub use datagram::{Datagram, DatagramType};
pub use header::StreamHeaderType;
pub use object_status::ObjectStatus;
pub use subgroup::{SubgroupHeader, SubgroupObject, SubgroupObjectExt};
