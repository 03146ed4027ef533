//! Access to Zyxel GS1900 switches: the typed values of their command line,
//! the parsers for its responses, and the pieces of its web login.
pub mod addr;
pub mod basic;
pub mod cable;
pub mod iface;
pub mod pattern;
pub mod poe;
pub mod session;
pub mod status;
pub mod tables;
pub mod text;
pub mod types;
pub mod web;

pub use addr::{IPv4Address, MacAddress};
pub use basic::BasicInfo;
pub use cable::CableDiagnosis;
pub use iface::InterfaceTrafficStatus;
pub use poe::{PoEConfig, PoEDebug, PoEPort, PoESupply};
pub use session::{Action, Collector, Event};
pub use status::InterfaceStatus;
pub use tables::{FiberInfo, LLDPNeighbor, MacEntry, VLANInfo};
pub use types::{
    CablePairState, CablePairStatus, Error, LLDPCap, MacEntryType, MediaType, PoEClass, PoELimitMode,
    PoEMode, PoEPowerMode, PoEPowerUpSequence, PoEPriority, PoEStatus, PortDuplex, PortSpeed,
    SFPStatus, VLANType,
};
