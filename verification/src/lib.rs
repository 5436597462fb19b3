//! Decoding of nl80211 attribute streams.
//!
//! The kernel's wireless subsystem answers generic netlink requests with
//! buffers of type-length-value attributes. This crate turns such buffers
//! into typed records: [`Interface`], [`Bss`] and [`Station`].
//!
//! Every function here is pure: it reads the bytes it is given and returns a
//! value or a [`DecodeError`]. Opening sockets and sending commands is left
//! to the caller.
//!
//! * `parse_attr` and `addr` decode the payload of one attribute.
//! * `attr` splits a buffer into attributes, at any depth of nesting.
//! * `schema` holds the tables of known tags and says, for a sequence of
//!   attributes, which error stops its decoding and which payload a field is
//!   read from.
//! * `interface`, `bss` and `station` build the records.
//! * `nl80211traits` holds what all records have in common.

pub mod addr;
pub mod attr;
pub mod bss;
pub mod error;
pub mod interface;
pub mod nl80211traits;
pub mod parse_attr;
pub mod schema;
pub mod station;

pub use crate::addr::{parse_macaddr, MacAddr};
pub use crate::attr::{nla_tag, parse_attributes, Nlattr};
pub use crate::bss::Bss;
pub use crate::error::DecodeError;
pub use crate::interface::Interface;
pub use crate::nl80211traits::{from_buffer, FromNlAttributeHandle, NlPayloadDecode};
pub use crate::parse_attr::{parse_i32, parse_i8, parse_string, parse_u16, parse_u32, parse_u64};
pub use crate::station::Station;
