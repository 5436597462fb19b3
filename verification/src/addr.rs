//! Hardware addresses.

use crate::error::DecodeError;
use vstd::prelude::*;

verus! {

/// A hardware address, either in the 6-byte form of a network device or in
/// the 8-byte form that identifies a wireless device.
#[derive(Clone, Copy, Debug, PartialEq, Eq, Hash)]
pub enum MacAddr {
    V6([u8; 6]),
    V8([u8; 8]),
}

impl View for MacAddr {
    type V = Seq<u8>;

    /// The bytes of the address, in the order of the wire.
    open spec fn view(&self) -> Seq<u8> {
        match *self {
            MacAddr::V6(bytes) => bytes@,
            MacAddr::V8(bytes) => bytes@,
        }
    }
}

impl MacAddr {
    /// The bytes of the address, in the order of the wire.
    pub fn as_bytes(&self) -> (bytes: &[u8])
        ensures
            bytes@ == self@,
    {
        match self {
            MacAddr::V6(bytes) => bytes.as_slice(),
            MacAddr::V8(bytes) => bytes.as_slice(),
        }
    }

    /// Whether this is the 6-byte form.
    pub fn is_v6(&self) -> (b: bool)
        ensures
            b == (*self is V6),
            b == (self@.len() == 6),
    {
        match self {
            MacAddr::V6(_) => true,
            MacAddr::V8(_) => false,
        }
    }

    /// Whether this is the 8-byte form.
    pub fn is_v8(&self) -> (b: bool)
        ensures
            b == (*self is V8),
            b == (self@.len() == 8),
    {
        match self {
            MacAddr::V6(_) => false,
            MacAddr::V8(_) => true,
        }
    }
}

impl vstd::std_specs::convert::FromSpecImpl<[u8; 6]> for MacAddr {
    open spec fn obeys_from_spec() -> bool {
        true
    }

    open spec fn from_spec(bytes: [u8; 6]) -> MacAddr {
        MacAddr::V6(bytes)
    }
}

impl From<[u8; 6]> for MacAddr {
    fn from(bytes: [u8; 6]) -> (addr: MacAddr) {
        MacAddr::V6(bytes)
    }
}

impl vstd::std_specs::convert::FromSpecImpl<[u8; 8]> for MacAddr {
    open spec fn obeys_from_spec() -> bool {
        true
    }

    open spec fn from_spec(bytes: [u8; 8]) -> MacAddr {
        MacAddr::V8(bytes)
    }
}

impl From<[u8; 8]> for MacAddr {
    fn from(bytes: [u8; 8]) -> (addr: MacAddr) {
        MacAddr::V8(bytes)
    }
}

/// What decoding a payload as a hardware address gives when the payload has
/// a size that no address has.
pub open spec fn address_error(payload: Seq<u8>) -> Option<DecodeError> {
    if payload.len() == 6 || payload.len() == 8 {
        None
    } else {
        Some(DecodeError::InvalidAddressLength { actual: payload.len() as usize })
    }
}

/// Parse a payload of six or eight bytes as a mac address
pub fn parse_macaddr(input: &[u8]) -> (r: Result<MacAddr, DecodeError>)
    ensures
        match address_error(input@) {
            Some(e) => r == Err::<MacAddr, DecodeError>(e),
            None => r matches Ok(addr) && addr@ == input@,
        },
{
    if input.len() == 6 {
        let bytes: [u8; 6] = [input[0], input[1], input[2], input[3], input[4], input[5]];
        assert(bytes@ =~= input@);
        Ok(MacAddr::V6(bytes))
    } else if input.len() == 8 {
        let bytes: [u8; 8] = [
            input[0],
            input[1],
            input[2],
            input[3],
            input[4],
            input[5],
            input[6],
            input[7],
        ];
        assert(bytes@ =~= input@);
        Ok(MacAddr::V8(bytes))
    } else {
        Err(DecodeError::InvalidAddressLength { actual: input.len() })
    }
}

} // verus!
