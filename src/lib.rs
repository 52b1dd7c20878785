//! Building JPSS Raw Data Record (RDR) granules from CCSDS space packets, and
//! reading them back.
//!
//! Packets are grouped into fixed-length granules aligned to the mission base
//! time; each granule is compiled into the Common RDR byte layout (a static
//! header, an APID list, a packet-tracker table and the packet storage area).
use vstd::prelude::*;

pub mod bytes;
pub mod codec;
pub mod collector;
pub mod config;
pub mod dump;
pub mod error;
pub mod granule;
pub mod layout;
pub mod leap;
pub mod meta;
pub mod names;
pub mod packet;
pub mod rdr;
pub mod text;
pub mod time;

pub use codec::{ApidInfo, ApidList, CommonRdr, PacketTracker, StaticHeader};
pub use collector::{Collector, Granule};
pub use config::{ApidSpec, Config, ProductSpec, RdrSpec, SatSpec};
pub use error::{Error, RdrError};
pub use granule::{checked_granule_start, get_granule_start, granule_id};
pub use dump::{packet_bytes, split_by_apid};
pub use leap::{Leap, LeapSecs};
pub use meta::{
    attr_date, attr_time, filename, rdr_filename_meta, rdr_filename_meta_at, AggrMeta, GranuleMeta, Meta, ProductMeta, Rdr,
};
pub use names::{dataset_name, get_spacecraft, parse_valid_satellite, DatasetType};
pub use packet::{Packet, PrimaryHeader};
pub use rdr::RdrData;
pub use time::Time;

verus! {

} // verus!
