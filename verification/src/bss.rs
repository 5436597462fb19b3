//! Scan results.

use crate::addr::{parse_macaddr, MacAddr};
use crate::attr::{
    attr_stream, views, AttrView, Nlattr, NL80211_ATTR_BSS, NL80211_BSS_BEACON_INTERVAL,
    NL80211_BSS_BSSID, NL80211_BSS_FREQUENCY, NL80211_BSS_SEEN_MS_AGO, NL80211_BSS_SIGNAL_MBM,
    NL80211_BSS_STATUS,
};
use crate::error::DecodeError;
use crate::nl80211traits::FromNlAttributeHandle;
use crate::parse_attr::{le_i32, le_u16, le_u32, parse_i32, parse_u16, parse_u32};
use crate::schema::{
    contents, field_flag, field_i32, field_u16, field_u32, first_error, last_payload,
    lemma_first_error_next, lemma_last_occurrence, lemma_last_payload_concat,
    lemma_remove_other_tag, lemma_single, lemma_take_next, lemma_unlisted_tag_causes_no_error,
    nested, or_earlier, rule, Table,
};
use vstd::prelude::*;

verus! {

/// A struct representing a BSS (Basic Service Set)
#[derive(Clone, Debug, PartialEq)]
pub struct Bss {
    pub bssid: Option<MacAddr>,
    /// Frequency in MHz
    pub frequency: Option<u32>,
    /// Beacon interval of the (I)BSS
    pub beacon_interval: Option<u16>,
    /// Age of this BSS entry in ms
    pub seen_ms_ago: Option<u32>,
    /// Status, if this BSS is "used"
    pub status: Option<bool>,
    /// Signal strength of probe response/beacon in mBm (100 * dBm)
    pub signal: Option<i32>,
}

/// A BSS as a mathematical value.
pub struct BssView {
    pub bssid: Option<Seq<u8>>,
    pub frequency: Option<u32>,
    pub beacon_interval: Option<u16>,
    pub seen_ms_ago: Option<u32>,
    pub status: Option<bool>,
    pub signal: Option<i32>,
}

impl View for Bss {
    type V = BssView;

    open spec fn view(&self) -> BssView {
        BssView {
            bssid: match self.bssid {
                Some(addr) => Some(addr@),
                None => None,
            },
            frequency: self.frequency,
            beacon_interval: self.beacon_interval,
            seen_ms_ago: self.seen_ms_ago,
            status: self.status,
            signal: self.signal,
        }
    }
}

/// What the attributes `info`, found inside `NL80211_ATTR_BSS`, say of a
/// BSS: each field is read from the last attribute that has its tag.
pub open spec fn bss_info_fields(info: Seq<AttrView>) -> BssView {
    BssView {
        bssid: last_payload(info, NL80211_BSS_BSSID),
        frequency: field_u32(info, NL80211_BSS_FREQUENCY),
        beacon_interval: field_u16(info, NL80211_BSS_BEACON_INTERVAL),
        seen_ms_ago: field_u32(info, NL80211_BSS_SEEN_MS_AGO),
        status: field_flag(info, NL80211_BSS_STATUS),
        signal: field_i32(info, NL80211_BSS_SIGNAL_MBM),
    }
}

/// The BSS that the attributes of a message describe: what all its
/// `NL80211_ATTR_BSS` containers hold, taken together in order. Attributes
/// outside these containers say nothing of it.
pub open spec fn bss_fields(attrs: Seq<AttrView>) -> BssView {
    bss_info_fields(nested(attrs, NL80211_ATTR_BSS))
}

/// The fields of `later`, and those of `earlier` where `later` has none.
pub open spec fn bss_overlay(later: BssView, earlier: BssView) -> BssView {
    BssView {
        bssid: or_earlier(later.bssid, earlier.bssid),
        frequency: or_earlier(later.frequency, earlier.frequency),
        beacon_interval: or_earlier(later.beacon_interval, earlier.beacon_interval),
        seen_ms_ago: or_earlier(later.seen_ms_ago, earlier.seen_ms_ago),
        status: or_earlier(later.status, earlier.status),
        signal: or_earlier(later.signal, earlier.signal),
    }
}

/// What two runs of BSS attributes say together is what the second says,
/// and what the first says where the second is silent.
pub proof fn lemma_bss_info_concat(first: Seq<AttrView>, second: Seq<AttrView>)
    ensures
        bss_info_fields(first + second) == bss_overlay(
            bss_info_fields(second),
            bss_info_fields(first),
        ),
{
    lemma_last_payload_concat(first, second, NL80211_BSS_BSSID);
    lemma_last_payload_concat(first, second, NL80211_BSS_FREQUENCY);
    lemma_last_payload_concat(first, second, NL80211_BSS_BEACON_INTERVAL);
    lemma_last_payload_concat(first, second, NL80211_BSS_SEEN_MS_AGO);
    lemma_last_payload_concat(first, second, NL80211_BSS_STATUS);
    lemma_last_payload_concat(first, second, NL80211_BSS_SIGNAL_MBM);
}

/// What a single BSS attribute says of a BSS.
proof fn lemma_bss_info_single(attr: AttrView)
    ensures
        bss_info_fields(seq![attr]) == (BssView {
            bssid: if attr.nla_type == NL80211_BSS_BSSID {
                Some(attr.payload)
            } else {
                None
            },
            frequency: if attr.nla_type == NL80211_BSS_FREQUENCY {
                Some(le_u32(attr.payload))
            } else {
                None
            },
            beacon_interval: if attr.nla_type == NL80211_BSS_BEACON_INTERVAL {
                Some(le_u16(attr.payload))
            } else {
                None
            },
            seen_ms_ago: if attr.nla_type == NL80211_BSS_SEEN_MS_AGO {
                Some(le_u32(attr.payload))
            } else {
                None
            },
            status: if attr.nla_type == NL80211_BSS_STATUS {
                Some(le_u32(attr.payload) != 0)
            } else {
                None
            },
            signal: if attr.nla_type == NL80211_BSS_SIGNAL_MBM {
                Some(le_i32(attr.payload))
            } else {
                None
            },
        }),
{
    lemma_single(attr, NL80211_BSS_BSSID);
    lemma_single(attr, NL80211_BSS_FREQUENCY);
    lemma_single(attr, NL80211_BSS_BEACON_INTERVAL);
    lemma_single(attr, NL80211_BSS_SEEN_MS_AGO);
    lemma_single(attr, NL80211_BSS_STATUS);
    lemma_single(attr, NL80211_BSS_SIGNAL_MBM);
}

/// What the first `i + 1` BSS attributes say is what the first `i` say,
/// with what attribute `i` says laid over it.
proof fn lemma_bss_info_next(info: Seq<AttrView>, i: int)
    requires
        0 <= i < info.len(),
    ensures
        bss_info_fields(info.take(i + 1)) == bss_overlay(
            bss_info_fields(seq![info[i]]),
            bss_info_fields(info.take(i)),
        ),
{
    assert(info.take(i + 1) =~= info.take(i) + seq![info[i]]);
    lemma_bss_info_concat(info.take(i), seq![info[i]]);
}

impl Default for Bss {
    /// The BSS of which nothing is known.
    fn default() -> (bss: Bss)
        ensures
            bss@ == bss_fields(Seq::empty()),
    {
        Bss {
            bssid: None,
            frequency: None,
            beacon_interval: None,
            seen_ms_ago: None,
            status: None,
            signal: None,
        }
    }
}

/// Read what a `NL80211_ATTR_BSS` container says into `bss`. What it does
/// not speak of stays as it was.
fn read_bss(bss: &mut Bss, container: &Nlattr) -> (r: Result<(), DecodeError>)
    ensures
        match attr_stream(container@.payload) {
            Err(e) => r == Err::<(), DecodeError>(e),
            Ok(info) => match first_error(Table::Bss, info) {
                Some(e) => r == Err::<(), DecodeError>(e),
                None => r is Ok && final(bss)@ == bss_overlay(bss_info_fields(info), old(bss)@),
            },
        },
{
    let handle = container.get_nested_attributes()?;
    let ghost info = views(handle@);
    let ghost before = bss@;
    let mut i: usize = 0;
    assert(info.take(0) =~= Seq::<AttrView>::empty());
    while i < handle.len()
        invariant
            i <= handle.len(),
            info == views(handle@),
            attr_stream(container@.payload) == Ok::<Seq<AttrView>, DecodeError>(info),
            first_error(Table::Bss, info.take(i as int)) is None,
            bss@ == bss_overlay(bss_info_fields(info.take(i as int)), before),
        decreases handle.len() - i,
    {
        let attr = &handle[i];
        let payload = attr.payload.as_slice();
        proof {
            assert(info[i as int] == attr@);
            lemma_first_error_next(Table::Bss, info, i as int);
            lemma_bss_info_next(info, i as int);
            lemma_bss_info_single(attr@);
        }
        if attr.nla_type == NL80211_BSS_BEACON_INTERVAL {
            bss.beacon_interval = Some(parse_u16(payload)?);
        } else if attr.nla_type == NL80211_BSS_FREQUENCY {
            bss.frequency = Some(parse_u32(payload)?);
        } else if attr.nla_type == NL80211_BSS_SEEN_MS_AGO {
            bss.seen_ms_ago = Some(parse_u32(payload)?);
        } else if attr.nla_type == NL80211_BSS_STATUS {
            bss.status = Some(parse_u32(payload)? != 0);
        } else if attr.nla_type == NL80211_BSS_BSSID {
            bss.bssid = Some(parse_macaddr(payload)?);
        } else if attr.nla_type == NL80211_BSS_SIGNAL_MBM {
            bss.signal = Some(parse_i32(payload)?);
        }
        i = i + 1;
    }
    assert(info.take(i as int) =~= info);
    Ok(())
}

impl FromNlAttributeHandle for Bss {
    open spec fn table() -> Table {
        Table::Scan
    }

    open spec fn fields(attrs: Seq<AttrView>) -> BssView {
        bss_fields(attrs)
    }

    /// Parse netlink messages returned by the nl80211 command CmdGetScan
    fn from_handle(handle: &[Nlattr]) -> (r: Result<Bss, DecodeError>) {
        let ghost attrs = views(handle@);
        let mut bss = Bss::default();
        let mut i: usize = 0;
        assert(attrs.take(0) =~= Seq::<AttrView>::empty());
        while i < handle.len()
            invariant
                i <= handle.len(),
                attrs == views(handle@),
                first_error(Table::Scan, attrs.take(i as int)) is None,
                bss@ == bss_fields(attrs.take(i as int)),
            decreases handle.len() - i,
        {
            let attr = &handle[i];
            proof {
                assert(attrs[i as int] == attr@);
                lemma_first_error_next(Table::Scan, attrs, i as int);
                lemma_take_next(attrs, i as int);
                lemma_bss_info_concat(
                    nested(attrs.take(i as int), NL80211_ATTR_BSS),
                    contents(attr@, NL80211_ATTR_BSS),
                );
            }
            if attr.nla_type == NL80211_ATTR_BSS {
                read_bss(&mut bss, attr)?;
            }
            i = i + 1;
        }
        assert(attrs.take(i as int) =~= attrs);
        Ok(bss)
    }

    proof fn lemma_unlisted_tag_says_nothing(attrs: Seq<AttrView>, i: int) {
        lemma_remove_other_tag(attrs, i, NL80211_ATTR_BSS);
    }
}

/// An attribute inside `NL80211_ATTR_BSS` whose tag the BSS table does not
/// list changes nothing: the others say the same of the BSS, and cause the
/// same error, with or without it.
pub proof fn lemma_bss_info_passes_over_unlisted(info: Seq<AttrView>, i: int)
    requires
        0 <= i < info.len(),
        rule(Table::Bss, info[i].nla_type) is Ignore,
    ensures
        first_error(Table::Bss, info.remove(i)) == first_error(Table::Bss, info),
        bss_info_fields(info.remove(i)) == bss_info_fields(info),
{
    lemma_unlisted_tag_causes_no_error(Table::Bss, info, i);
    lemma_remove_other_tag(info, i, NL80211_BSS_BSSID);
    lemma_remove_other_tag(info, i, NL80211_BSS_FREQUENCY);
    lemma_remove_other_tag(info, i, NL80211_BSS_BEACON_INTERVAL);
    lemma_remove_other_tag(info, i, NL80211_BSS_SEEN_MS_AGO);
    lemma_remove_other_tag(info, i, NL80211_BSS_STATUS);
    lemma_remove_other_tag(info, i, NL80211_BSS_SIGNAL_MBM);
}

/// Where a tag occurs more than once inside `NL80211_ATTR_BSS`, the field
/// holds what the last occurrence decodes to.
pub proof fn lemma_bss_info_last_wins(info: Seq<AttrView>, i: int)
    requires
        0 <= i < info.len(),
        forall|j: int| i < j < info.len() ==> info[j].nla_type != info[i].nla_type,
    ensures
        info[i].nla_type == NL80211_BSS_BSSID ==> bss_info_fields(info).bssid == Some(
            info[i].payload,
        ),
        info[i].nla_type == NL80211_BSS_FREQUENCY ==> bss_info_fields(info).frequency == Some(
            le_u32(info[i].payload),
        ),
        info[i].nla_type == NL80211_BSS_BEACON_INTERVAL ==> bss_info_fields(info).beacon_interval
            == Some(le_u16(info[i].payload)),
        info[i].nla_type == NL80211_BSS_SEEN_MS_AGO ==> bss_info_fields(info).seen_ms_ago == Some(
            le_u32(info[i].payload),
        ),
        info[i].nla_type == NL80211_BSS_STATUS ==> bss_info_fields(info).status == Some(
            le_u32(info[i].payload) != 0,
        ),
        info[i].nla_type == NL80211_BSS_SIGNAL_MBM ==> bss_info_fields(info).signal == Some(
            le_i32(info[i].payload),
        ),
{
    lemma_last_occurrence(info, i);
}

} // verus!
