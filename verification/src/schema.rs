//! The tables that say which tags a decoder knows, and what follows from
//! them for a sequence of attributes: which error stops its decoding, and
//! which payload a field is read from.

use crate::addr::address_error;
use crate::attr::{
    attr_stream, AttrView, NL80211_ATTR_BSS, NL80211_ATTR_CHANNEL_WIDTH, NL80211_ATTR_IFINDEX,
    NL80211_ATTR_IFNAME, NL80211_ATTR_MAC, NL80211_ATTR_SSID, NL80211_ATTR_STA_INFO,
    NL80211_ATTR_WDEV, NL80211_ATTR_WIPHY, NL80211_ATTR_WIPHY_FREQ,
    NL80211_ATTR_WIPHY_TX_POWER_LEVEL, NL80211_BSS_BEACON_INTERVAL, NL80211_BSS_BSSID,
    NL80211_BSS_FREQUENCY, NL80211_BSS_SEEN_MS_AGO, NL80211_BSS_SIGNAL_MBM, NL80211_BSS_STATUS,
    NL80211_RATE_INFO_BITRATE32, NL80211_STA_INFO_BEACON_LOSS, NL80211_STA_INFO_CONNECTED_TIME,
    NL80211_STA_INFO_RX_BITRATE, NL80211_STA_INFO_RX_PACKETS, NL80211_STA_INFO_SIGNAL,
    NL80211_STA_INFO_SIGNAL_AVG, NL80211_STA_INFO_TX_BITRATE, NL80211_STA_INFO_TX_FAILED,
    NL80211_STA_INFO_TX_PACKETS, NL80211_STA_INFO_TX_RETRIES,
};
use crate::error::DecodeError;
use crate::parse_attr::{le_i32, le_i8, le_u16, le_u32, le_u64, text_of, width_error};
use vstd::prelude::*;

verus! {

/// A place in which attributes are found. Each has its own set of tags: the
/// same number means different things in different places.
pub enum Table {
    /// The attributes of a message that describes an interface.
    Interface,
    /// The attributes of a message that describes a scan result.
    Scan,
    /// The attributes inside `NL80211_ATTR_BSS`.
    Bss,
    /// The attributes of a message that describes a station.
    Station,
    /// The attributes inside `NL80211_ATTR_STA_INFO`.
    StaInfo,
    /// The attributes inside a bitrate of a station.
    RateInfo,
}

/// How the payload of an attribute is read.
pub enum Rule {
    /// The tag is not known in this place: the attribute is passed over.
    Ignore,
    /// A number of the given width in bytes.
    Number(usize),
    /// A hardware address.
    Address,
    /// Text. It cannot fail to decode.
    Text,
    /// A sequence of attributes of the given place.
    Container(Table),
}

/// The rule for the attributes of tag `tag` found in `table`.
pub open spec fn rule(table: Table, tag: u16) -> Rule {
    match table {
        Table::Interface => {
            if tag == NL80211_ATTR_IFINDEX || tag == NL80211_ATTR_WIPHY_FREQ || tag
                == NL80211_ATTR_CHANNEL_WIDTH || tag == NL80211_ATTR_WIPHY_TX_POWER_LEVEL || tag
                == NL80211_ATTR_WIPHY {
                Rule::Number(4)
            } else if tag == NL80211_ATTR_WDEV {
                Rule::Number(8)
            } else if tag == NL80211_ATTR_MAC {
                Rule::Address
            } else if tag == NL80211_ATTR_SSID || tag == NL80211_ATTR_IFNAME {
                Rule::Text
            } else {
                Rule::Ignore
            }
        },
        Table::Scan => {
            if tag == NL80211_ATTR_BSS {
                Rule::Container(Table::Bss)
            } else {
                Rule::Ignore
            }
        },
        Table::Bss => {
            if tag == NL80211_BSS_BSSID {
                Rule::Address
            } else if tag == NL80211_BSS_FREQUENCY || tag == NL80211_BSS_SEEN_MS_AGO || tag
                == NL80211_BSS_STATUS || tag == NL80211_BSS_SIGNAL_MBM {
                Rule::Number(4)
            } else if tag == NL80211_BSS_BEACON_INTERVAL {
                Rule::Number(2)
            } else {
                Rule::Ignore
            }
        },
        Table::Station => {
            if tag == NL80211_ATTR_MAC {
                Rule::Address
            } else if tag == NL80211_ATTR_STA_INFO {
                Rule::Container(Table::StaInfo)
            } else {
                Rule::Ignore
            }
        },
        Table::StaInfo => {
            if tag == NL80211_STA_INFO_SIGNAL || tag == NL80211_STA_INFO_SIGNAL_AVG {
                Rule::Number(1)
            } else if tag == NL80211_STA_INFO_BEACON_LOSS || tag == NL80211_STA_INFO_CONNECTED_TIME
                || tag == NL80211_STA_INFO_RX_PACKETS || tag == NL80211_STA_INFO_TX_PACKETS || tag
                == NL80211_STA_INFO_TX_RETRIES || tag == NL80211_STA_INFO_TX_FAILED {
                Rule::Number(4)
            } else if tag == NL80211_STA_INFO_RX_BITRATE || tag == NL80211_STA_INFO_TX_BITRATE {
                Rule::Container(Table::RateInfo)
            } else {
                Rule::Ignore
            }
        },
        Table::RateInfo => {
            if tag == NL80211_RATE_INFO_BITRATE32 {
                Rule::Number(4)
            } else {
                Rule::Ignore
            }
        },
    }
}

/// How many levels of containers a table has below it.
pub open spec fn depth(table: Table) -> nat {
    match table {
        Table::Interface => 0,
        Table::Scan => 1,
        Table::Bss => 0,
        Table::Station => 2,
        Table::StaInfo => 1,
        Table::RateInfo => 0,
    }
}

/// The error that one attribute found in `table` causes, if it causes one.
///
/// An attribute that the table passes over causes none. A container causes
/// the error of its own split into attributes, or else the first that
/// its contents cause.
pub open spec fn attr_error(table: Table, attr: AttrView) -> Option<DecodeError>
    decreases depth(table), 0nat,
{
    match rule(table, attr.nla_type) {
        Rule::Ignore => None,
        Rule::Text => None,
        Rule::Number(width) => width_error(attr.payload, width),
        Rule::Address => address_error(attr.payload),
        Rule::Container(inner) => match attr_stream(attr.payload) {
            Err(e) => Some(e),
            Ok(contents) => first_error(inner, contents),
        },
    }
}

/// The error that stops the decoding of `attrs`, found in `table`: that of
/// the first attribute, in the order of the wire, that causes one.
pub open spec fn first_error(table: Table, attrs: Seq<AttrView>) -> Option<DecodeError>
    decreases depth(table), attrs.len() + 1,
{
    if attrs.len() == 0 {
        None
    } else {
        match first_error(table, attrs.drop_last()) {
            Some(e) => Some(e),
            None => attr_error(table, attrs.last()),
        }
    }
}

/// The payload of the last attribute of `attrs` that has the tag `tag`.
pub open spec fn last_payload(attrs: Seq<AttrView>, tag: u16) -> Option<Seq<u8>>
    decreases attrs.len(),
{
    if attrs.len() == 0 {
        None
    } else if attrs.last().nla_type == tag {
        Some(attrs.last().payload)
    } else {
        last_payload(attrs.drop_last(), tag)
    }
}

/// The attributes inside `attr`, where it has the tag `tag` and its payload
/// splits into attributes; none otherwise.
pub open spec fn contents(attr: AttrView, tag: u16) -> Seq<AttrView> {
    if attr.nla_type == tag {
        match attr_stream(attr.payload) {
            Ok(inner) => inner,
            Err(_) => Seq::empty(),
        }
    } else {
        Seq::empty()
    }
}

/// The attributes inside all the containers of `attrs` that have the tag
/// `tag`, in the order of the wire.
pub open spec fn nested(attrs: Seq<AttrView>, tag: u16) -> Seq<AttrView>
    decreases attrs.len(),
{
    if attrs.len() == 0 {
        Seq::empty()
    } else {
        nested(attrs.drop_last(), tag) + contents(attrs.last(), tag)
    }
}

/// The field that is read as `i8` from the last attribute of tag `tag`.
pub open spec fn field_i8(attrs: Seq<AttrView>, tag: u16) -> Option<i8> {
    match last_payload(attrs, tag) {
        Some(payload) => Some(le_i8(payload)),
        None => None,
    }
}

/// The field that is read as `u16` from the last attribute of tag `tag`.
pub open spec fn field_u16(attrs: Seq<AttrView>, tag: u16) -> Option<u16> {
    match last_payload(attrs, tag) {
        Some(payload) => Some(le_u16(payload)),
        None => None,
    }
}

/// The field that is read as `u32` from the last attribute of tag `tag`.
pub open spec fn field_u32(attrs: Seq<AttrView>, tag: u16) -> Option<u32> {
    match last_payload(attrs, tag) {
        Some(payload) => Some(le_u32(payload)),
        None => None,
    }
}

/// The field that is read as `i32` from the last attribute of tag `tag`.
pub open spec fn field_i32(attrs: Seq<AttrView>, tag: u16) -> Option<i32> {
    match last_payload(attrs, tag) {
        Some(payload) => Some(le_i32(payload)),
        None => None,
    }
}

/// The field that is read as `u64` from the last attribute of tag `tag`.
pub open spec fn field_u64(attrs: Seq<AttrView>, tag: u16) -> Option<u64> {
    match last_payload(attrs, tag) {
        Some(payload) => Some(le_u64(payload)),
        None => None,
    }
}

/// The field that is true where the last attribute of tag `tag` holds a
/// `u32` other than zero.
pub open spec fn field_flag(attrs: Seq<AttrView>, tag: u16) -> Option<bool> {
    match last_payload(attrs, tag) {
        Some(payload) => Some(le_u32(payload) != 0),
        None => None,
    }
}

/// The field that is read as text from the last attribute of tag `tag`.
pub open spec fn field_text(attrs: Seq<AttrView>, tag: u16) -> Option<Seq<char>> {
    match last_payload(attrs, tag) {
        Some(payload) => Some(text_of(payload)),
        None => None,
    }
}

/// The first of two optional values that is there, `later` before `earlier`.
pub open spec fn or_earlier<T>(later: Option<T>, earlier: Option<T>) -> Option<T> {
    match later {
        Some(v) => Some(v),
        None => earlier,
    }
}

/// What one more attribute adds to what is known of the first `i`.
pub(crate) proof fn lemma_take_next(attrs: Seq<AttrView>, i: int)
    requires
        0 <= i < attrs.len(),
    ensures
        attrs.take(i + 1).drop_last() == attrs.take(i),
        attrs.take(i + 1).last() == attrs[i],
        forall|tag: u16| #[trigger]
            last_payload(attrs.take(i + 1), tag) == if attrs[i].nla_type == tag {
                Some(attrs[i].payload)
            } else {
                last_payload(attrs.take(i), tag)
            },
        forall|tag: u16| #[trigger]
            nested(attrs.take(i + 1), tag) == nested(attrs.take(i), tag) + contents(attrs[i], tag),
{
    assert(attrs.take(i + 1).drop_last() =~= attrs.take(i));
}

/// What a sequence of one attribute holds.
pub(crate) proof fn lemma_single(attr: AttrView, tag: u16)
    ensures
        last_payload(seq![attr], tag) == if attr.nla_type == tag {
            Some(attr.payload)
        } else {
            None
        },
        nested(seq![attr], tag) == contents(attr, tag),
{
    let one = seq![attr];
    assert(one.drop_last() =~= Seq::<AttrView>::empty());
    assert(one.last() == attr);
    assert(nested(one.drop_last(), tag) =~= Seq::<AttrView>::empty());
    assert(last_payload(one.drop_last(), tag) is None);
    assert(Seq::<AttrView>::empty() + contents(attr, tag) =~= contents(attr, tag));
}

/// The error of the first `i + 1` attributes is that of the first `i`, or
/// else that of attribute `i`; and once there is one, it is the error of
/// them all.
pub(crate) proof fn lemma_first_error_next(table: Table, attrs: Seq<AttrView>, i: int)
    requires
        0 <= i < attrs.len(),
    ensures
        first_error(table, attrs.take(i + 1)) == match first_error(table, attrs.take(i)) {
            Some(e) => Some(e),
            None => attr_error(table, attrs[i]),
        },
        first_error(table, attrs.take(i + 1)) is Some ==> first_error(table, attrs) == first_error(
            table,
            attrs.take(i + 1),
        ),
{
    assert(attrs.take(i + 1).drop_last() =~= attrs.take(i));
    if first_error(table, attrs.take(i + 1)) is Some {
        lemma_error_stays(table, attrs, i + 1);
    }
}

/// An error among the first `i` attributes is the error of them all.
pub(crate) proof fn lemma_error_stays(table: Table, attrs: Seq<AttrView>, i: int)
    requires
        0 <= i <= attrs.len(),
        first_error(table, attrs.take(i)) is Some,
    ensures
        first_error(table, attrs) == first_error(table, attrs.take(i)),
    decreases attrs.len(),
{
    if i == attrs.len() {
        assert(attrs.take(i) =~= attrs);
    } else {
        assert(attrs.drop_last().take(i) =~= attrs.take(i));
        lemma_error_stays(table, attrs.drop_last(), i);
    }
}

/// In two sequences read one after the other, the last attribute of a tag
/// is that of the second sequence, or else that of the first.
pub proof fn lemma_last_payload_concat(first: Seq<AttrView>, second: Seq<AttrView>, tag: u16)
    ensures
        last_payload(first + second, tag) == or_earlier(
            last_payload(second, tag),
            last_payload(first, tag),
        ),
    decreases second.len(),
{
    if second.len() == 0 {
        assert(first + second =~= first);
    } else {
        assert((first + second).drop_last() =~= first + second.drop_last());
        lemma_last_payload_concat(first, second.drop_last(), tag);
    }
}

/// The contents of two sequences read one after the other are the contents
/// of the first and then those of the second.
pub proof fn lemma_nested_concat(first: Seq<AttrView>, second: Seq<AttrView>, tag: u16)
    ensures
        nested(first + second, tag) == nested(first, tag) + nested(second, tag),
    decreases second.len(),
{
    if second.len() == 0 {
        assert(first + second =~= first);
        assert(nested(first, tag) + Seq::<AttrView>::empty() =~= nested(first, tag));
    } else {
        assert((first + second).drop_last() =~= first + second.drop_last());
        lemma_nested_concat(first, second.drop_last(), tag);
        assert((nested(first, tag) + nested(second.drop_last(), tag)) + contents(
            second.last(),
            tag,
        ) =~= nested(first, tag) + (nested(second.drop_last(), tag) + contents(
            second.last(),
            tag,
        )));
    }
}

/// An attribute says nothing of the tags it does not have: without it, the
/// last payload of any other tag is the same, and so are the contents of
/// the containers of any other tag.
pub proof fn lemma_remove_other_tag(attrs: Seq<AttrView>, i: int, tag: u16)
    requires
        0 <= i < attrs.len(),
        attrs[i].nla_type != tag,
    ensures
        last_payload(attrs.remove(i), tag) == last_payload(attrs, tag),
        nested(attrs.remove(i), tag) == nested(attrs, tag),
    decreases attrs.len(),
{
    if i == attrs.len() - 1 {
        assert(attrs.remove(i) =~= attrs.drop_last());
        assert(nested(attrs.drop_last(), tag) + Seq::<AttrView>::empty() =~= nested(
            attrs.drop_last(),
            tag,
        ));
    } else {
        assert(attrs.remove(i).drop_last() =~= attrs.drop_last().remove(i));
        assert(attrs.remove(i).last() == attrs.last());
        lemma_remove_other_tag(attrs.drop_last(), i, tag);
    }
}

/// An attribute whose tag a table does not list never stops the decoding of
/// the others: with or without it, the same error comes out, or none.
pub proof fn lemma_unlisted_tag_causes_no_error(table: Table, attrs: Seq<AttrView>, i: int)
    requires
        0 <= i < attrs.len(),
        rule(table, attrs[i].nla_type) is Ignore,
    ensures
        first_error(table, attrs.remove(i)) == first_error(table, attrs),
    decreases attrs.len(),
{
    if i == attrs.len() - 1 {
        assert(attrs.remove(i) =~= attrs.drop_last());
        assert(attr_error(table, attrs.last()) is None);
    } else {
        assert(attrs.remove(i).drop_last() =~= attrs.drop_last().remove(i));
        assert(attrs.remove(i).last() == attrs.last());
        assert(attrs.drop_last()[i] == attrs[i]);
        lemma_unlisted_tag_causes_no_error(table, attrs.drop_last(), i);
    }
}

/// Where a tag occurs more than once, the payload that counts is that of
/// its last occurrence in the order of the wire.
pub proof fn lemma_last_occurrence(attrs: Seq<AttrView>, i: int)
    requires
        0 <= i < attrs.len(),
        forall|j: int| i < j < attrs.len() ==> attrs[j].nla_type != attrs[i].nla_type,
    ensures
        last_payload(attrs, attrs[i].nla_type) == Some(attrs[i].payload),
    decreases attrs.len(),
{
    if i < attrs.len() - 1 {
        assert(attrs.last() == attrs[attrs.len() - 1]);
        assert(attrs.drop_last()[i] == attrs[i]);
        assert forall|j: int| i < j < attrs.drop_last().len() implies attrs.drop_last()[j].nla_type
            != attrs.drop_last()[i].nla_type by {
            assert(attrs.drop_last()[j] == attrs[j]);
        }
        lemma_last_occurrence(attrs.drop_last(), i);
    }
}

} // verus!
