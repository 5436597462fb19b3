//! Remote stations.

use crate::addr::{parse_macaddr, MacAddr};
use crate::attr::{
    attr_stream, views, AttrView, Nlattr, NL80211_ATTR_MAC, NL80211_ATTR_STA_INFO,
    NL80211_RATE_INFO_BITRATE32, NL80211_STA_INFO_BEACON_LOSS, NL80211_STA_INFO_CONNECTED_TIME,
    NL80211_STA_INFO_RX_BITRATE, NL80211_STA_INFO_RX_PACKETS, NL80211_STA_INFO_SIGNAL,
    NL80211_STA_INFO_SIGNAL_AVG, NL80211_STA_INFO_TX_BITRATE, NL80211_STA_INFO_TX_FAILED,
    NL80211_STA_INFO_TX_PACKETS, NL80211_STA_INFO_TX_RETRIES,
};
use crate::error::DecodeError;
use crate::nl80211traits::FromNlAttributeHandle;
use crate::parse_attr::{le_i8, le_u32, parse_i8, parse_u32};
use crate::schema::{
    contents, field_i8, field_u32, first_error, last_payload, lemma_first_error_next,
    lemma_last_occurrence, lemma_last_payload_concat, lemma_nested_concat,
    lemma_remove_other_tag, lemma_single, lemma_take_next, lemma_unlisted_tag_causes_no_error,
    nested, or_earlier, rule, Table,
};
use vstd::prelude::*;

verus! {

/// A struct representing a remote station (Access Point)
#[derive(Clone, Debug, PartialEq)]
pub struct Station {
    /// Signal strength average
    pub average_signal: Option<i8>,
    /// Count of times beacon loss was detected
    pub beacon_loss: Option<u32>,
    /// Station bssid
    pub bssid: Option<MacAddr>,
    /// Time since the station is last connected in seconds
    pub connected_time: Option<u32>,
    /// Reception bitrate (u32)
    pub rx_bitrate: Option<u32>,
    /// Total received packets (MSDUs and MMPDUs) from this station
    pub rx_packets: Option<u32>,
    /// Signal strength of last received PPDU
    pub signal: Option<i8>,
    /// Transmission bitrate
    pub tx_bitrate: Option<u32>,
    /// Total failed packets (MPDUs) to this station
    pub tx_failed: Option<u32>,
    /// Total transmitted packets (MSDUs and MMPDUs) to this station
    pub tx_packets: Option<u32>,
    /// Total retries (MPDUs) to this station
    pub tx_retries: Option<u32>,
}

/// A station as a mathematical value.
pub struct StationView {
    pub average_signal: Option<i8>,
    pub beacon_loss: Option<u32>,
    pub bssid: Option<Seq<u8>>,
    pub connected_time: Option<u32>,
    pub rx_bitrate: Option<u32>,
    pub rx_packets: Option<u32>,
    pub signal: Option<i8>,
    pub tx_bitrate: Option<u32>,
    pub tx_failed: Option<u32>,
    pub tx_packets: Option<u32>,
    pub tx_retries: Option<u32>,
}

impl View for Station {
    type V = StationView;

    open spec fn view(&self) -> StationView {
        StationView {
            average_signal: self.average_signal,
            beacon_loss: self.beacon_loss,
            bssid: match self.bssid {
                Some(addr) => Some(addr@),
                None => None,
            },
            connected_time: self.connected_time,
            rx_bitrate: self.rx_bitrate,
            rx_packets: self.rx_packets,
            signal: self.signal,
            tx_bitrate: self.tx_bitrate,
            tx_failed: self.tx_failed,
            tx_packets: self.tx_packets,
            tx_retries: self.tx_retries,
        }
    }
}

/// What the attributes `info`, found inside `NL80211_ATTR_STA_INFO`, say of
/// a station. Each field is read from the last attribute that has its tag;
/// a bitrate from the last `NL80211_RATE_INFO_BITRATE32` inside the bitrate
/// containers of its direction. The address is not among them.
pub open spec fn sta_info_fields(info: Seq<AttrView>) -> StationView {
    StationView {
        average_signal: field_i8(info, NL80211_STA_INFO_SIGNAL_AVG),
        beacon_loss: field_u32(info, NL80211_STA_INFO_BEACON_LOSS),
        bssid: None,
        connected_time: field_u32(info, NL80211_STA_INFO_CONNECTED_TIME),
        rx_bitrate: field_u32(
            nested(info, NL80211_STA_INFO_RX_BITRATE),
            NL80211_RATE_INFO_BITRATE32,
        ),
        rx_packets: field_u32(info, NL80211_STA_INFO_RX_PACKETS),
        signal: field_i8(info, NL80211_STA_INFO_SIGNAL),
        tx_bitrate: field_u32(
            nested(info, NL80211_STA_INFO_TX_BITRATE),
            NL80211_RATE_INFO_BITRATE32,
        ),
        tx_failed: field_u32(info, NL80211_STA_INFO_TX_FAILED),
        tx_packets: field_u32(info, NL80211_STA_INFO_TX_PACKETS),
        tx_retries: field_u32(info, NL80211_STA_INFO_TX_RETRIES),
    }
}

/// The station that the attributes of a message describe: the address is
/// that of the last `NL80211_ATTR_MAC`, the rest is read from what all the
/// `NL80211_ATTR_STA_INFO` containers hold, taken together in order.
pub open spec fn station_fields(attrs: Seq<AttrView>) -> StationView {
    StationView {
        bssid: last_payload(attrs, NL80211_ATTR_MAC),
        ..sta_info_fields(nested(attrs, NL80211_ATTR_STA_INFO))
    }
}

/// The fields of `later`, and those of `earlier` where `later` has none.
pub open spec fn station_overlay(later: StationView, earlier: StationView) -> StationView {
    StationView {
        average_signal: or_earlier(later.average_signal, earlier.average_signal),
        beacon_loss: or_earlier(later.beacon_loss, earlier.beacon_loss),
        bssid: or_earlier(later.bssid, earlier.bssid),
        connected_time: or_earlier(later.connected_time, earlier.connected_time),
        rx_bitrate: or_earlier(later.rx_bitrate, earlier.rx_bitrate),
        rx_packets: or_earlier(later.rx_packets, earlier.rx_packets),
        signal: or_earlier(later.signal, earlier.signal),
        tx_bitrate: or_earlier(later.tx_bitrate, earlier.tx_bitrate),
        tx_failed: or_earlier(later.tx_failed, earlier.tx_failed),
        tx_packets: or_earlier(later.tx_packets, earlier.tx_packets),
        tx_retries: or_earlier(later.tx_retries, earlier.tx_retries),
    }
}

/// What two runs of station-info attributes say together is what the second
/// says, and what the first says where the second is silent.
pub proof fn lemma_sta_info_concat(first: Seq<AttrView>, second: Seq<AttrView>)
    ensures
        sta_info_fields(first + second) == station_overlay(
            sta_info_fields(second),
            sta_info_fields(first),
        ),
{
    lemma_last_payload_concat(first, second, NL80211_STA_INFO_SIGNAL_AVG);
    lemma_last_payload_concat(first, second, NL80211_STA_INFO_BEACON_LOSS);
    lemma_last_payload_concat(first, second, NL80211_STA_INFO_CONNECTED_TIME);
    lemma_last_payload_concat(first, second, NL80211_STA_INFO_RX_PACKETS);
    lemma_last_payload_concat(first, second, NL80211_STA_INFO_SIGNAL);
    lemma_last_payload_concat(first, second, NL80211_STA_INFO_TX_FAILED);
    lemma_last_payload_concat(first, second, NL80211_STA_INFO_TX_PACKETS);
    lemma_last_payload_concat(first, second, NL80211_STA_INFO_TX_RETRIES);
    lemma_nested_concat(first, second, NL80211_STA_INFO_RX_BITRATE);
    lemma_nested_concat(first, second, NL80211_STA_INFO_TX_BITRATE);
    lemma_last_payload_concat(
        nested(first, NL80211_STA_INFO_RX_BITRATE),
        nested(second, NL80211_STA_INFO_RX_BITRATE),
        NL80211_RATE_INFO_BITRATE32,
    );
    lemma_last_payload_concat(
        nested(first, NL80211_STA_INFO_TX_BITRATE),
        nested(second, NL80211_STA_INFO_TX_BITRATE),
        NL80211_RATE_INFO_BITRATE32,
    );
}

/// What a single station-info attribute says of a station.
proof fn lemma_sta_info_single(attr: AttrView)
    ensures
        sta_info_fields(seq![attr]) == (StationView {
            average_signal: if attr.nla_type == NL80211_STA_INFO_SIGNAL_AVG {
                Some(le_i8(attr.payload))
            } else {
                None
            },
            beacon_loss: if attr.nla_type == NL80211_STA_INFO_BEACON_LOSS {
                Some(le_u32(attr.payload))
            } else {
                None
            },
            bssid: None,
            connected_time: if attr.nla_type == NL80211_STA_INFO_CONNECTED_TIME {
                Some(le_u32(attr.payload))
            } else {
                None
            },
            rx_bitrate: field_u32(
                contents(attr, NL80211_STA_INFO_RX_BITRATE),
                NL80211_RATE_INFO_BITRATE32,
            ),
            rx_packets: if attr.nla_type == NL80211_STA_INFO_RX_PACKETS {
                Some(le_u32(attr.payload))
            } else {
                None
            },
            signal: if attr.nla_type == NL80211_STA_INFO_SIGNAL {
                Some(le_i8(attr.payload))
            } else {
                None
            },
            tx_bitrate: field_u32(
                contents(attr, NL80211_STA_INFO_TX_BITRATE),
                NL80211_RATE_INFO_BITRATE32,
            ),
            tx_failed: if attr.nla_type == NL80211_STA_INFO_TX_FAILED {
                Some(le_u32(attr.payload))
            } else {
                None
            },
            tx_packets: if attr.nla_type == NL80211_STA_INFO_TX_PACKETS {
                Some(le_u32(attr.payload))
            } else {
                None
            },
            tx_retries: if attr.nla_type == NL80211_STA_INFO_TX_RETRIES {
                Some(le_u32(attr.payload))
            } else {
                None
            },
        }),
{
    lemma_single(attr, NL80211_STA_INFO_SIGNAL_AVG);
    lemma_single(attr, NL80211_STA_INFO_BEACON_LOSS);
    lemma_single(attr, NL80211_STA_INFO_CONNECTED_TIME);
    lemma_single(attr, NL80211_STA_INFO_RX_BITRATE);
    lemma_single(attr, NL80211_STA_INFO_RX_PACKETS);
    lemma_single(attr, NL80211_STA_INFO_SIGNAL);
    lemma_single(attr, NL80211_STA_INFO_TX_BITRATE);
    lemma_single(attr, NL80211_STA_INFO_TX_FAILED);
    lemma_single(attr, NL80211_STA_INFO_TX_PACKETS);
    lemma_single(attr, NL80211_STA_INFO_TX_RETRIES);
}

/// What the first `i + 1` station-info attributes say is what the first `i`
/// say, with what attribute `i` says laid over it.
proof fn lemma_sta_info_next(info: Seq<AttrView>, i: int)
    requires
        0 <= i < info.len(),
    ensures
        sta_info_fields(info.take(i + 1)) == station_overlay(
            sta_info_fields(seq![info[i]]),
            sta_info_fields(info.take(i)),
        ),
{
    assert(info.take(i + 1) =~= info.take(i) + seq![info[i]]);
    lemma_sta_info_concat(info.take(i), seq![info[i]]);
}

impl Default for Station {
    /// The station of which nothing is known.
    fn default() -> (station: Station)
        ensures
            station@ == station_fields(Seq::empty()),
    {
        Station {
            average_signal: None,
            beacon_loss: None,
            bssid: None,
            connected_time: None,
            rx_bitrate: None,
            rx_packets: None,
            signal: None,
            tx_bitrate: None,
            tx_failed: None,
            tx_packets: None,
            tx_retries: None,
        }
    }
}

/// The bitrate that a bitrate container holds: that of its last
/// `NL80211_RATE_INFO_BITRATE32`, if it has one.
fn read_bitrate(rate_info: &Nlattr) -> (r: Result<Option<u32>, DecodeError>)
    ensures
        match attr_stream(rate_info@.payload) {
            Err(e) => r == Err::<Option<u32>, DecodeError>(e),
            Ok(rates) => match first_error(Table::RateInfo, rates) {
                Some(e) => r == Err::<Option<u32>, DecodeError>(e),
                None => r == Ok::<Option<u32>, DecodeError>(
                    field_u32(rates, NL80211_RATE_INFO_BITRATE32),
                ),
            },
        },
{
    let handle = rate_info.get_nested_attributes()?;
    let ghost rates = views(handle@);
    let mut bitrate: Option<u32> = None;
    let mut i: usize = 0;
    assert(rates.take(0) =~= Seq::<AttrView>::empty());
    while i < handle.len()
        invariant
            i <= handle.len(),
            rates == views(handle@),
            attr_stream(rate_info@.payload) == Ok::<Seq<AttrView>, DecodeError>(rates),
            first_error(Table::RateInfo, rates.take(i as int)) is None,
            bitrate == field_u32(rates.take(i as int), NL80211_RATE_INFO_BITRATE32),
        decreases handle.len() - i,
    {
        let attr = &handle[i];
        proof {
            assert(rates[i as int] == attr@);
            lemma_first_error_next(Table::RateInfo, rates, i as int);
            lemma_take_next(rates, i as int);
        }
        if attr.nla_type == NL80211_RATE_INFO_BITRATE32 {
            bitrate = Some(parse_u32(attr.payload.as_slice())?);
        }
        i = i + 1;
    }
    assert(rates.take(i as int) =~= rates);
    Ok(bitrate)
}

/// Read what a `NL80211_ATTR_STA_INFO` container says into `station`. What
/// it does not speak of stays as it was.
fn read_sta_info(station: &mut Station, sta_info: &Nlattr) -> (r: Result<(), DecodeError>)
    ensures
        match attr_stream(sta_info@.payload) {
            Err(e) => r == Err::<(), DecodeError>(e),
            Ok(info) => match first_error(Table::StaInfo, info) {
                Some(e) => r == Err::<(), DecodeError>(e),
                None => r is Ok && final(station)@ == station_overlay(
                    sta_info_fields(info),
                    old(station)@,
                ),
            },
        },
{
    let handle = sta_info.get_nested_attributes()?;
    let ghost info = views(handle@);
    let ghost before = station@;
    let mut i: usize = 0;
    assert(info.take(0) =~= Seq::<AttrView>::empty());
    while i < handle.len()
        invariant
            i <= handle.len(),
            info == views(handle@),
            attr_stream(sta_info@.payload) == Ok::<Seq<AttrView>, DecodeError>(info),
            first_error(Table::StaInfo, info.take(i as int)) is None,
            station@ == station_overlay(sta_info_fields(info.take(i as int)), before),
        decreases handle.len() - i,
    {
        let attr = &handle[i];
        let payload = attr.payload.as_slice();
        proof {
            assert(info[i as int] == attr@);
            lemma_first_error_next(Table::StaInfo, info, i as int);
            lemma_sta_info_next(info, i as int);
            lemma_sta_info_single(attr@);
        }
        if attr.nla_type == NL80211_STA_INFO_SIGNAL {
            station.signal = Some(parse_i8(payload)?);
        } else if attr.nla_type == NL80211_STA_INFO_SIGNAL_AVG {
            station.average_signal = Some(parse_i8(payload)?);
        } else if attr.nla_type == NL80211_STA_INFO_BEACON_LOSS {
            station.beacon_loss = Some(parse_u32(payload)?);
        } else if attr.nla_type == NL80211_STA_INFO_CONNECTED_TIME {
            station.connected_time = Some(parse_u32(payload)?);
        } else if attr.nla_type == NL80211_STA_INFO_RX_PACKETS {
            station.rx_packets = Some(parse_u32(payload)?);
        } else if attr.nla_type == NL80211_STA_INFO_TX_PACKETS {
            station.tx_packets = Some(parse_u32(payload)?);
        } else if attr.nla_type == NL80211_STA_INFO_TX_RETRIES {
            station.tx_retries = Some(parse_u32(payload)?);
        } else if attr.nla_type == NL80211_STA_INFO_TX_FAILED {
            station.tx_failed = Some(parse_u32(payload)?);
        } else if attr.nla_type == NL80211_STA_INFO_RX_BITRATE {
            if let Some(bitrate) = read_bitrate(attr)? {
                station.rx_bitrate = Some(bitrate);
            }
        } else if attr.nla_type == NL80211_STA_INFO_TX_BITRATE {
            if let Some(bitrate) = read_bitrate(attr)? {
                station.tx_bitrate = Some(bitrate);
            }
        }
        i = i + 1;
    }
    assert(info.take(i as int) =~= info);
    Ok(())
}

impl FromNlAttributeHandle for Station {
    open spec fn table() -> Table {
        Table::Station
    }

    open spec fn fields(attrs: Seq<AttrView>) -> StationView {
        station_fields(attrs)
    }

    /// Parse netlink messages returned by the nl80211 command CmdGetStation
    fn from_handle(handle: &[Nlattr]) -> (r: Result<Station, DecodeError>) {
        let ghost attrs = views(handle@);
        let mut station = Station::default();
        let mut i: usize = 0;
        assert(attrs.take(0) =~= Seq::<AttrView>::empty());
        while i < handle.len()
            invariant
                i <= handle.len(),
                attrs == views(handle@),
                first_error(Table::Station, attrs.take(i as int)) is None,
                station@ == station_fields(attrs.take(i as int)),
            decreases handle.len() - i,
        {
            let attr = &handle[i];
            proof {
                assert(attrs[i as int] == attr@);
                lemma_first_error_next(Table::Station, attrs, i as int);
                lemma_take_next(attrs, i as int);
                lemma_sta_info_concat(
                    nested(attrs.take(i as int), NL80211_ATTR_STA_INFO),
                    contents(attr@, NL80211_ATTR_STA_INFO),
                );
            }
            if attr.nla_type == NL80211_ATTR_MAC {
                station.bssid = Some(parse_macaddr(attr.payload.as_slice())?);
            } else if attr.nla_type == NL80211_ATTR_STA_INFO {
                read_sta_info(&mut station, attr)?;
            }
            i = i + 1;
        }
        assert(attrs.take(i as int) =~= attrs);
        Ok(station)
    }

    proof fn lemma_unlisted_tag_says_nothing(attrs: Seq<AttrView>, i: int) {
        lemma_remove_other_tag(attrs, i, NL80211_ATTR_MAC);
        lemma_remove_other_tag(attrs, i, NL80211_ATTR_STA_INFO);
    }
}

/// An attribute inside `NL80211_ATTR_STA_INFO` whose tag the station-info
/// table does not list changes nothing: the others say the same of the
/// station, and cause the same error, with or without it.
pub proof fn lemma_sta_info_passes_over_unlisted(info: Seq<AttrView>, i: int)
    requires
        0 <= i < info.len(),
        rule(Table::StaInfo, info[i].nla_type) is Ignore,
    ensures
        first_error(Table::StaInfo, info.remove(i)) == first_error(Table::StaInfo, info),
        sta_info_fields(info.remove(i)) == sta_info_fields(info),
{
    lemma_unlisted_tag_causes_no_error(Table::StaInfo, info, i);
    lemma_remove_other_tag(info, i, NL80211_STA_INFO_SIGNAL_AVG);
    lemma_remove_other_tag(info, i, NL80211_STA_INFO_BEACON_LOSS);
    lemma_remove_other_tag(info, i, NL80211_STA_INFO_CONNECTED_TIME);
    lemma_remove_other_tag(info, i, NL80211_STA_INFO_RX_BITRATE);
    lemma_remove_other_tag(info, i, NL80211_STA_INFO_RX_PACKETS);
    lemma_remove_other_tag(info, i, NL80211_STA_INFO_SIGNAL);
    lemma_remove_other_tag(info, i, NL80211_STA_INFO_TX_BITRATE);
    lemma_remove_other_tag(info, i, NL80211_STA_INFO_TX_FAILED);
    lemma_remove_other_tag(info, i, NL80211_STA_INFO_TX_PACKETS);
    lemma_remove_other_tag(info, i, NL80211_STA_INFO_TX_RETRIES);
}

/// An attribute inside a bitrate container whose tag is not
/// `NL80211_RATE_INFO_BITRATE32` changes nothing: the others give the same
/// bitrate, and cause the same error, with or without it.
pub proof fn lemma_rate_info_passes_over_unlisted(rates: Seq<AttrView>, i: int)
    requires
        0 <= i < rates.len(),
        rule(Table::RateInfo, rates[i].nla_type) is Ignore,
    ensures
        first_error(Table::RateInfo, rates.remove(i)) == first_error(Table::RateInfo, rates),
        field_u32(rates.remove(i), NL80211_RATE_INFO_BITRATE32) == field_u32(
            rates,
            NL80211_RATE_INFO_BITRATE32,
        ),
{
    lemma_unlisted_tag_causes_no_error(Table::RateInfo, rates, i);
    lemma_remove_other_tag(rates, i, NL80211_RATE_INFO_BITRATE32);
}

/// Where a message holds more than one `NL80211_ATTR_MAC`, the address of
/// the station is that of the last.
pub proof fn lemma_station_last_wins(attrs: Seq<AttrView>, i: int)
    requires
        0 <= i < attrs.len(),
        attrs[i].nla_type == NL80211_ATTR_MAC,
        forall|j: int| i < j < attrs.len() ==> attrs[j].nla_type != NL80211_ATTR_MAC,
    ensures
        station_fields(attrs).bssid == Some(attrs[i].payload),
{
    lemma_last_occurrence(attrs, i);
}

/// Where a tag occurs more than once inside `NL80211_ATTR_STA_INFO`, the
/// field holds what the last occurrence decodes to.
pub proof fn lemma_sta_info_last_wins(info: Seq<AttrView>, i: int)
    requires
        0 <= i < info.len(),
        forall|j: int| i < j < info.len() ==> info[j].nla_type != info[i].nla_type,
    ensures
        info[i].nla_type == NL80211_STA_INFO_SIGNAL ==> sta_info_fields(info).signal == Some(
            le_i8(info[i].payload),
        ),
        info[i].nla_type == NL80211_STA_INFO_SIGNAL_AVG ==> sta_info_fields(info).average_signal
            == Some(le_i8(info[i].payload)),
        info[i].nla_type == NL80211_STA_INFO_BEACON_LOSS ==> sta_info_fields(info).beacon_loss
            == Some(le_u32(info[i].payload)),
        info[i].nla_type == NL80211_STA_INFO_CONNECTED_TIME ==> sta_info_fields(
            info,
        ).connected_time == Some(le_u32(info[i].payload)),
        info[i].nla_type == NL80211_STA_INFO_RX_PACKETS ==> sta_info_fields(info).rx_packets
            == Some(le_u32(info[i].payload)),
        info[i].nla_type == NL80211_STA_INFO_TX_PACKETS ==> sta_info_fields(info).tx_packets
            == Some(le_u32(info[i].payload)),
        info[i].nla_type == NL80211_STA_INFO_TX_RETRIES ==> sta_info_fields(info).tx_retries
            == Some(le_u32(info[i].payload)),
        info[i].nla_type == NL80211_STA_INFO_TX_FAILED ==> sta_info_fields(info).tx_failed == Some(
            le_u32(info[i].payload),
        ),
{
    lemma_last_occurrence(info, i);
}

/// Where the bitrate containers of one direction hold more than one
/// `NL80211_RATE_INFO_BITRATE32`, the bitrate is that of the last.
pub proof fn lemma_rate_info_last_wins(rates: Seq<AttrView>, i: int)
    requires
        0 <= i < rates.len(),
        rates[i].nla_type == NL80211_RATE_INFO_BITRATE32,
        forall|j: int| i < j < rates.len() ==> rates[j].nla_type != NL80211_RATE_INFO_BITRATE32,
    ensures
        field_u32(rates, NL80211_RATE_INFO_BITRATE32) == Some(le_u32(rates[i].payload)),
{
    lemma_last_occurrence(rates, i);
}

} // verus!
