//! Wifi interfaces.

use crate::addr::{parse_macaddr, MacAddr};
use crate::attr::{
    views, AttrView, Nlattr, NL80211_ATTR_CHANNEL_WIDTH, NL80211_ATTR_IFINDEX,
    NL80211_ATTR_IFNAME, NL80211_ATTR_MAC, NL80211_ATTR_SSID, NL80211_ATTR_WDEV,
    NL80211_ATTR_WIPHY, NL80211_ATTR_WIPHY_FREQ, NL80211_ATTR_WIPHY_TX_POWER_LEVEL,
};
use crate::error::DecodeError;
use crate::nl80211traits::FromNlAttributeHandle;
use crate::parse_attr::{le_u32, le_u64, parse_string, parse_u32, parse_u64, text_of};
use crate::schema::{
    field_text, field_u32, field_u64, first_error, last_payload, lemma_first_error_next,
    lemma_last_occurrence, lemma_remove_other_tag, lemma_take_next,
    lemma_unlisted_tag_causes_no_error, rule, Table,
};
use vstd::prelude::*;

verus! {

/// A struct representing a wifi interface
#[derive(Clone, Debug, PartialEq)]
pub struct Interface {
    /// A netlink interface index. This index is used to fetch extra information with nl80211
    pub index: Option<u32>,
    /// Interface essid
    pub ssid: Option<String>,
    /// Interface MAC address
    pub mac: Option<MacAddr>,
    /// Interface name
    pub name: Option<String>,
    /// Interface frequency of the selected channel (MHz)
    pub frequency: Option<u32>,
    /// Interface channel
    pub channel: Option<u32>,
    /// Interface transmit power level in signed mBm units.
    pub power: Option<u32>,
    /// index of wiphy to operate on, cf. /sys/class/ieee80211/<phyname>/index
    pub phy: Option<u32>,
    /// Wireless device identifier, used for pseudo-devices that don't have a netdev
    pub device: Option<u64>,
}

/// An interface as a mathematical value.
pub struct InterfaceView {
    pub index: Option<u32>,
    pub ssid: Option<Seq<char>>,
    pub mac: Option<Seq<u8>>,
    pub name: Option<Seq<char>>,
    pub frequency: Option<u32>,
    pub channel: Option<u32>,
    pub power: Option<u32>,
    pub phy: Option<u32>,
    pub device: Option<u64>,
}

impl View for Interface {
    type V = InterfaceView;

    open spec fn view(&self) -> InterfaceView {
        InterfaceView {
            index: self.index,
            ssid: match self.ssid {
                Some(text) => Some(text@),
                None => None,
            },
            mac: match self.mac {
                Some(addr) => Some(addr@),
                None => None,
            },
            name: match self.name {
                Some(text) => Some(text@),
                None => None,
            },
            frequency: self.frequency,
            channel: self.channel,
            power: self.power,
            phy: self.phy,
            device: self.device,
        }
    }
}

/// The interface that `attrs` describe: each field is read from the last
/// attribute that has the field's tag, and is absent where there is none.
pub open spec fn interface_fields(attrs: Seq<AttrView>) -> InterfaceView {
    InterfaceView {
        index: field_u32(attrs, NL80211_ATTR_IFINDEX),
        ssid: field_text(attrs, NL80211_ATTR_SSID),
        mac: last_payload(attrs, NL80211_ATTR_MAC),
        name: field_text(attrs, NL80211_ATTR_IFNAME),
        frequency: field_u32(attrs, NL80211_ATTR_WIPHY_FREQ),
        channel: field_u32(attrs, NL80211_ATTR_CHANNEL_WIDTH),
        power: field_u32(attrs, NL80211_ATTR_WIPHY_TX_POWER_LEVEL),
        phy: field_u32(attrs, NL80211_ATTR_WIPHY),
        device: field_u64(attrs, NL80211_ATTR_WDEV),
    }
}

impl Default for Interface {
    /// The interface of which nothing is known.
    fn default() -> (interface: Interface)
        ensures
            interface@ == interface_fields(Seq::empty()),
    {
        Interface {
            index: None,
            ssid: None,
            mac: None,
            name: None,
            frequency: None,
            channel: None,
            power: None,
            phy: None,
            device: None,
        }
    }
}

impl FromNlAttributeHandle for Interface {
    open spec fn table() -> Table {
        Table::Interface
    }

    open spec fn fields(attrs: Seq<AttrView>) -> InterfaceView {
        interface_fields(attrs)
    }

    /// Parse netlink messages returned by the nl80211 command CmdGetInterface
    fn from_handle(handle: &[Nlattr]) -> (r: Result<Interface, DecodeError>) {
        let ghost attrs = views(handle@);
        let mut interface = Interface::default();
        let mut i: usize = 0;
        assert(attrs.take(0) =~= Seq::<AttrView>::empty());
        while i < handle.len()
            invariant
                i <= handle.len(),
                attrs == views(handle@),
                first_error(Table::Interface, attrs.take(i as int)) is None,
                interface@ == interface_fields(attrs.take(i as int)),
            decreases handle.len() - i,
        {
            let attr = &handle[i];
            let payload = attr.payload.as_slice();
            proof {
                assert(attrs[i as int] == attr@);
                lemma_first_error_next(Table::Interface, attrs, i as int);
                lemma_take_next(attrs, i as int);
            }
            if attr.nla_type == NL80211_ATTR_IFINDEX {
                interface.index = Some(parse_u32(payload)?);
            } else if attr.nla_type == NL80211_ATTR_SSID {
                interface.ssid = Some(parse_string(payload));
            } else if attr.nla_type == NL80211_ATTR_MAC {
                interface.mac = Some(parse_macaddr(payload)?);
            } else if attr.nla_type == NL80211_ATTR_IFNAME {
                interface.name = Some(parse_string(payload));
            } else if attr.nla_type == NL80211_ATTR_WIPHY_FREQ {
                interface.frequency = Some(parse_u32(payload)?);
            } else if attr.nla_type == NL80211_ATTR_CHANNEL_WIDTH {
                interface.channel = Some(parse_u32(payload)?);
            } else if attr.nla_type == NL80211_ATTR_WIPHY_TX_POWER_LEVEL {
                interface.power = Some(parse_u32(payload)?);
            } else if attr.nla_type == NL80211_ATTR_WIPHY {
                interface.phy = Some(parse_u32(payload)?);
            } else if attr.nla_type == NL80211_ATTR_WDEV {
                interface.device = Some(parse_u64(payload)?);
            }
            i = i + 1;
        }
        assert(attrs.take(i as int) =~= attrs);
        Ok(interface)
    }

    proof fn lemma_unlisted_tag_says_nothing(attrs: Seq<AttrView>, i: int) {
        lemma_remove_other_tag(attrs, i, NL80211_ATTR_IFINDEX);
        lemma_remove_other_tag(attrs, i, NL80211_ATTR_SSID);
        lemma_remove_other_tag(attrs, i, NL80211_ATTR_MAC);
        lemma_remove_other_tag(attrs, i, NL80211_ATTR_IFNAME);
        lemma_remove_other_tag(attrs, i, NL80211_ATTR_WIPHY_FREQ);
        lemma_remove_other_tag(attrs, i, NL80211_ATTR_CHANNEL_WIDTH);
        lemma_remove_other_tag(attrs, i, NL80211_ATTR_WIPHY_TX_POWER_LEVEL);
        lemma_remove_other_tag(attrs, i, NL80211_ATTR_WIPHY);
        lemma_remove_other_tag(attrs, i, NL80211_ATTR_WDEV);
    }
}

/// Where a tag occurs more than once in a message, the field holds what the
/// last occurrence decodes to.
pub proof fn lemma_interface_last_wins(attrs: Seq<AttrView>, i: int)
    requires
        0 <= i < attrs.len(),
        forall|j: int| i < j < attrs.len() ==> attrs[j].nla_type != attrs[i].nla_type,
    ensures
        attrs[i].nla_type == NL80211_ATTR_IFINDEX ==> interface_fields(attrs).index == Some(
            le_u32(attrs[i].payload),
        ),
        attrs[i].nla_type == NL80211_ATTR_SSID ==> interface_fields(attrs).ssid == Some(
            text_of(attrs[i].payload),
        ),
        attrs[i].nla_type == NL80211_ATTR_MAC ==> interface_fields(attrs).mac == Some(
            attrs[i].payload,
        ),
        attrs[i].nla_type == NL80211_ATTR_IFNAME ==> interface_fields(attrs).name == Some(
            text_of(attrs[i].payload),
        ),
        attrs[i].nla_type == NL80211_ATTR_WIPHY_FREQ ==> interface_fields(attrs).frequency == Some(
            le_u32(attrs[i].payload),
        ),
        attrs[i].nla_type == NL80211_ATTR_CHANNEL_WIDTH ==> interface_fields(attrs).channel
            == Some(le_u32(attrs[i].payload)),
        attrs[i].nla_type == NL80211_ATTR_WIPHY_TX_POWER_LEVEL ==> interface_fields(attrs).power
            == Some(le_u32(attrs[i].payload)),
        attrs[i].nla_type == NL80211_ATTR_WIPHY ==> interface_fields(attrs).phy == Some(
            le_u32(attrs[i].payload),
        ),
        attrs[i].nla_type == NL80211_ATTR_WDEV ==> interface_fields(attrs).device == Some(
            le_u64(attrs[i].payload),
        ),
{
    lemma_last_occurrence(attrs, i);
}

} // verus!
