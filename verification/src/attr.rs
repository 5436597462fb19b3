//! Attributes and the reader that splits a buffer into them.
//!
//! On the wire an attribute is a header of four bytes and a payload. The
//! header holds two little-endian 16-bit numbers: the length of header and
//! payload together, and the type. The two highest bits of the type are
//! flags and no part of the tag. After the payload come as many bytes of
//! padding as bring the next header to a multiple of four.

use crate::error::DecodeError;
use crate::parse_attr::{le_u16, read_u16_le};
use vstd::prelude::*;
use vstd::slice::{slice_subrange, slice_to_vec};

verus! {

/// The size of an attribute header.
pub const NLA_HDRLEN: usize = 4;

/// The bits of the type field that hold the tag.
pub const NLA_TYPE_MASK: u16 = 0x3fff;

// Tags of the attributes of a message.
pub const NL80211_ATTR_WIPHY: u16 = 1;
pub const NL80211_ATTR_IFINDEX: u16 = 3;
pub const NL80211_ATTR_IFNAME: u16 = 4;
pub const NL80211_ATTR_IFTYPE: u16 = 5;
pub const NL80211_ATTR_MAC: u16 = 6;
pub const NL80211_ATTR_STA_INFO: u16 = 21;
pub const NL80211_ATTR_WIPHY_FREQ: u16 = 38;
pub const NL80211_ATTR_WIPHY_CHANNEL_TYPE: u16 = 39;
pub const NL80211_ATTR_GENERATION: u16 = 46;
pub const NL80211_ATTR_BSS: u16 = 47;
pub const NL80211_ATTR_SSID: u16 = 52;
pub const NL80211_ATTR_4ADDR: u16 = 83;
pub const NL80211_ATTR_WIPHY_TX_POWER_LEVEL: u16 = 98;
pub const NL80211_ATTR_WDEV: u16 = 153;
pub const NL80211_ATTR_CHANNEL_WIDTH: u16 = 159;
pub const NL80211_ATTR_CENTER_FREQ1: u16 = 160;

// Tags inside `NL80211_ATTR_BSS`.
pub const NL80211_BSS_BSSID: u16 = 1;
pub const NL80211_BSS_FREQUENCY: u16 = 2;
pub const NL80211_BSS_BEACON_INTERVAL: u16 = 4;
pub const NL80211_BSS_SIGNAL_MBM: u16 = 7;
pub const NL80211_BSS_STATUS: u16 = 9;
pub const NL80211_BSS_SEEN_MS_AGO: u16 = 10;

// Tags inside `NL80211_ATTR_STA_INFO`.
pub const NL80211_STA_INFO_SIGNAL: u16 = 7;
pub const NL80211_STA_INFO_TX_BITRATE: u16 = 8;
pub const NL80211_STA_INFO_RX_PACKETS: u16 = 9;
pub const NL80211_STA_INFO_TX_PACKETS: u16 = 10;
pub const NL80211_STA_INFO_TX_RETRIES: u16 = 11;
pub const NL80211_STA_INFO_TX_FAILED: u16 = 12;
pub const NL80211_STA_INFO_SIGNAL_AVG: u16 = 13;
pub const NL80211_STA_INFO_RX_BITRATE: u16 = 14;
pub const NL80211_STA_INFO_CONNECTED_TIME: u16 = 16;
pub const NL80211_STA_INFO_BEACON_LOSS: u16 = 18;

// Tags inside `NL80211_STA_INFO_TX_BITRATE` and `NL80211_STA_INFO_RX_BITRATE`.
pub const NL80211_RATE_INFO_BITRATE32: u16 = 5;

/// One attribute: what its header declared, and its payload without padding.
#[derive(Clone, Debug, PartialEq, Eq)]
pub struct Nlattr {
    /// Length of the attribute header and payload together
    pub nla_len: u16,
    /// Tag of the attribute, within the set of tags of the place it was found in
    pub nla_type: u16,
    /// Payload of the attribute
    pub payload: Vec<u8>,
}

/// An attribute as a mathematical value.
pub struct AttrView {
    pub nla_len: u16,
    pub nla_type: u16,
    pub payload: Seq<u8>,
}

impl View for Nlattr {
    type V = AttrView;

    open spec fn view(&self) -> AttrView {
        AttrView { nla_len: self.nla_len, nla_type: self.nla_type, payload: self.payload@ }
    }
}

/// The attributes of `attrs` as mathematical values, in the same order.
pub open spec fn views(attrs: Seq<Nlattr>) -> Seq<AttrView> {
    Seq::new(attrs.len(), |i: int| attrs[i]@)
}

/// `len` rounded up to the next multiple of four.
pub open spec fn aligned(len: int) -> int {
    (len + 3) / 4 * 4
}

/// Where the attribute after one of `len` bytes begins in a buffer of
/// `total` bytes: behind the padding, or at the end where the buffer stops
/// short of it.
pub open spec fn next_offset(len: int, total: int) -> int {
    if aligned(len) <= total {
        aligned(len)
    } else {
        total
    }
}

/// The tag in a type field: the number that its fourteen low bits hold,
/// which is the field without its two flag bits.
pub open spec fn tag_of(type_field: u16) -> u16 {
    type_field % 0x4000
}

/// The tag in a type field: the field without its two flag bits.
pub fn nla_tag(type_field: u16) -> (tag: u16)
    ensures
        tag == tag_of(type_field),
{
    assert(type_field & 0x3fff == type_field % 0x4000) by (bit_vector);
    type_field & NLA_TYPE_MASK
}

/// The attributes that the bytes of `buf` hold, in the order of the wire.
///
/// An empty buffer holds none. Otherwise the buffer must begin with a whole
/// header whose length is at least that of a header and at most that of the
/// buffer; what follows the attribute and its padding is read the same way.
pub open spec fn attr_stream(buf: Seq<u8>) -> Result<Seq<AttrView>, DecodeError>
    decreases buf.len(),
{
    if buf.len() == 0 {
        Ok(Seq::empty())
    } else if buf.len() < NLA_HDRLEN {
        Err(DecodeError::TruncatedBuffer)
    } else {
        let nla_len = le_u16(buf.subrange(0, 2));
        if nla_len < NLA_HDRLEN || nla_len > buf.len() {
            Err(DecodeError::TruncatedBuffer)
        } else {
            let first = AttrView {
                nla_len,
                nla_type: tag_of(le_u16(buf.subrange(2, 4))),
                payload: buf.subrange(NLA_HDRLEN as int, nla_len as int),
            };
            match attr_stream(buf.skip(next_offset(nla_len as int, buf.len() as int))) {
                Ok(rest) => Ok(seq![first] + rest),
                Err(e) => Err(e),
            }
        }
    }
}

/// Reading `buf` from `pos` on gives the same as reading all of it, once the
/// attributes before `pos` are known to be `done`.
spec fn resumes(buf: Seq<u8>, pos: int, done: Seq<AttrView>) -> bool {
    attr_stream(buf) == match attr_stream(buf.skip(pos)) {
        Ok(rest) => Ok::<Seq<AttrView>, DecodeError>(done + rest),
        Err(e) => Err(e),
    }
}

/// Split a buffer into the attributes it holds.
///
/// The payloads are not interpreted: a payload that is itself a sequence of
/// attributes is split by another call, see [`Nlattr::get_nested_attributes`].
pub fn parse_attributes(buf: &[u8]) -> (r: Result<Vec<Nlattr>, DecodeError>)
    ensures
        match attr_stream(buf@) {
            Ok(attrs) => r matches Ok(v) && views(v@) == attrs,
            Err(e) => r == Err::<Vec<Nlattr>, DecodeError>(e),
        },
{
    let mut attrs: Vec<Nlattr> = Vec::new();
    let mut pos: usize = 0;
    assert(buf@.skip(0) =~= buf@);
    assert(views(attrs@) + attr_stream(buf@)->Ok_0 =~= attr_stream(buf@)->Ok_0);
    while pos < buf.len()
        invariant
            pos <= buf.len(),
            resumes(buf@, pos as int, views(attrs@)),
        decreases buf.len() - pos,
    {
        let ghost rest = buf@.skip(pos as int);
        let ghost done = views(attrs@);
        if buf.len() - pos < NLA_HDRLEN {
            return Err(DecodeError::TruncatedBuffer);
        }
        let nla_len: u16 = read_u16_le(slice_subrange(buf, pos, pos + 2));
        let type_field: u16 = read_u16_le(slice_subrange(buf, pos + 2, pos + 4));
        proof {
            assert(buf@.subrange(pos as int, pos + 2).subrange(0, 2) =~= rest.subrange(0, 2));
            assert(buf@.subrange(pos + 2, pos + 4).subrange(0, 2) =~= rest.subrange(2, 4));
        }
        let len: usize = nla_len as usize;
        if len < NLA_HDRLEN || len > buf.len() - pos {
            return Err(DecodeError::TruncatedBuffer);
        }
        let payload = slice_subrange(buf, pos + NLA_HDRLEN, pos + len);
        assert(payload@ =~= rest.subrange(NLA_HDRLEN as int, len as int));
        let attr = Nlattr {
            nla_len,
            nla_type: nla_tag(type_field),
            payload: slice_to_vec(payload),
        };
        let padded: usize = (len + 3) / 4 * 4;
        let step: usize = if padded <= buf.len() - pos {
            padded
        } else {
            buf.len() - pos
        };
        proof {
            assert(step == next_offset(len as int, rest.len() as int));
            assert(rest.skip(step as int) =~= buf@.skip(pos + step));
            assert(views(attrs@.push(attr)) =~= done.push(attr@));
            let tail = attr_stream(buf@.skip(pos + step));
            if tail is Ok {
                assert(done + (seq![attr@] + tail->Ok_0) =~= done.push(attr@) + tail->Ok_0);
            }
        }
        attrs.push(attr);
        pos = pos + step;
    }
    proof {
        assert(buf@.skip(pos as int) =~= Seq::<u8>::empty());
        assert(views(attrs@) + Seq::<AttrView>::empty() =~= views(attrs@));
    }
    Ok(attrs)
}

impl Nlattr {
    /// The attributes nested in the payload of this one.
    ///
    /// Whether the payload is such a sequence follows from the tag and is
    /// for the caller to know.
    pub fn get_nested_attributes(&self) -> (r: Result<Vec<Nlattr>, DecodeError>)
        ensures
            match attr_stream(self@.payload) {
                Ok(attrs) => r matches Ok(v) && views(v@) == attrs,
                Err(e) => r == Err::<Vec<Nlattr>, DecodeError>(e),
            },
    {
        parse_attributes(self.payload.as_slice())
    }
}

/// Two buffers read one after the other hold the attributes of the first
/// and then those of the second, where the first is whole and padded.
pub proof fn lemma_stream_concat(first: Seq<u8>, second: Seq<u8>)
    requires
        first.len() % 4 == 0,
        attr_stream(first) is Ok,
    ensures
        attr_stream(first + second) == match attr_stream(second) {
            Ok(rest) => Ok::<Seq<AttrView>, DecodeError>(attr_stream(first)->Ok_0 + rest),
            Err(e) => Err(e),
        },
    decreases first.len(),
{
    let both = first + second;
    if first.len() == 0 {
        assert(both =~= second);
        if attr_stream(second) is Ok {
            assert(Seq::<AttrView>::empty() + attr_stream(second)->Ok_0 =~= attr_stream(
                second,
            )->Ok_0);
        }
    } else {
        let len = le_u16(first.subrange(0, 2)) as int;
        let step = next_offset(len, first.len() as int);
        assert(both.subrange(0, 2) =~= first.subrange(0, 2));
        assert(both.subrange(2, 4) =~= first.subrange(2, 4));
        assert(both.subrange(NLA_HDRLEN as int, len) =~= first.subrange(NLA_HDRLEN as int, len));
        assert(step == aligned(len));
        assert(step == next_offset(len, both.len() as int));
        assert(both.skip(step) =~= first.skip(step) + second);
        lemma_stream_concat(first.skip(step), second);
        if attr_stream(second) is Ok {
            let head = attr_stream(first)->Ok_0;
            let tail = attr_stream(first.skip(step))->Ok_0;
            let rest = attr_stream(second)->Ok_0;
            assert(seq![head[0]] + (tail + rest) =~= (seq![head[0]] + tail) + rest);
        }
    }
}

/// Every attribute of a buffer has the length that its header declared,
/// and a tag without flag bits.
pub proof fn lemma_stream_attributes(buf: Seq<u8>, i: int)
    requires
        attr_stream(buf) is Ok,
        0 <= i < attr_stream(buf)->Ok_0.len(),
    ensures
        attr_stream(buf)->Ok_0[i].nla_len == NLA_HDRLEN + attr_stream(buf)->Ok_0[i].payload.len(),
        attr_stream(buf)->Ok_0[i].nla_type <= NLA_TYPE_MASK,
    decreases buf.len(),
{
    let len = le_u16(buf.subrange(0, 2)) as int;
    let step = next_offset(len, buf.len() as int);
    if i > 0 {
        let rest = attr_stream(buf.skip(step))->Ok_0;
        assert(attr_stream(buf)->Ok_0[i] == rest[i - 1]);
        lemma_stream_attributes(buf.skip(step), i - 1);
    }
}

} // verus!
