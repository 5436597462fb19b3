use nl80211::attr::{
    NL80211_ATTR_4ADDR, NL80211_ATTR_CENTER_FREQ1, NL80211_ATTR_CHANNEL_WIDTH,
    NL80211_ATTR_GENERATION, NL80211_ATTR_IFINDEX, NL80211_ATTR_IFNAME, NL80211_ATTR_IFTYPE,
    NL80211_ATTR_MAC, NL80211_ATTR_SSID, NL80211_ATTR_WDEV, NL80211_ATTR_WIPHY,
    NL80211_ATTR_WIPHY_CHANNEL_TYPE, NL80211_ATTR_WIPHY_FREQ, NL80211_ATTR_WIPHY_TX_POWER_LEVEL,
};
use nl80211::{from_buffer, DecodeError, FromNlAttributeHandle, Interface, MacAddr, Nlattr};

fn expected_interface() -> Interface {
    Interface {
        index: Some(3),
        ssid: Some("eduroam".into()),
        mac: Some(MacAddr::from([0xFF, 0xFF, 0xFF, 0xFF, 0xFF, 0xFF])),
        name: Some("wlp5s0".into()),
        frequency: Some(2412),
        channel: Some(1),
        power: Some(1700),
        phy: Some(0),
        device: Some(1),
    }
}

#[test]
fn interface_test_parser() {
    let handler = vec![
        Nlattr {
            nla_len: 8,
            nla_type: NL80211_ATTR_IFINDEX,
            payload: vec![3, 0, 0, 0],
        },
        Nlattr {
            nla_len: 11,
            nla_type: NL80211_ATTR_IFNAME,
            payload: vec![119, 108, 112, 53, 115, 48],
        },
        Nlattr {
            nla_len: 8,
            nla_type: NL80211_ATTR_WIPHY,
            payload: vec![0, 0, 0, 0],
        },
        Nlattr {
            nla_len: 8,
            nla_type: NL80211_ATTR_IFTYPE,
            payload: vec![2, 0, 0, 0],
        },
        Nlattr {
            nla_len: 12,
            nla_type: NL80211_ATTR_WDEV,
            payload: vec![1, 0, 0, 0, 0, 0, 0, 0],
        },
        Nlattr {
            nla_len: 10,
            nla_type: NL80211_ATTR_MAC,
            payload: vec![255, 255, 255, 255, 255, 255],
        },
        Nlattr {
            nla_len: 8,
            nla_type: NL80211_ATTR_GENERATION,
            payload: vec![5, 0, 0, 0],
        },
        Nlattr {
            nla_len: 5,
            nla_type: NL80211_ATTR_4ADDR,
            payload: vec![0],
        },
        Nlattr {
            nla_len: 8,
            nla_type: NL80211_ATTR_WIPHY_FREQ,
            payload: vec![108, 9, 0, 0],
        },
        Nlattr {
            nla_len: 8,
            nla_type: NL80211_ATTR_WIPHY_CHANNEL_TYPE,
            payload: vec![1, 0, 0, 0],
        },
        Nlattr {
            nla_len: 8,
            nla_type: NL80211_ATTR_CHANNEL_WIDTH,
            payload: vec![1, 0, 0, 0],
        },
        Nlattr {
            nla_len: 8,
            nla_type: NL80211_ATTR_CENTER_FREQ1,
            payload: vec![108, 9, 0, 0],
        },
        Nlattr {
            nla_len: 8,
            nla_type: NL80211_ATTR_WIPHY_TX_POWER_LEVEL,
            payload: vec![164, 6, 0, 0],
        },
        Nlattr {
            nla_len: 12,
            nla_type: NL80211_ATTR_SSID,
            payload: vec![101, 100, 117, 114, 111, 97, 109],
        },
    ];

    let interface = Interface::from_handle(&handler).unwrap();

    let expected_interface = expected_interface();

    assert_eq!(interface, expected_interface)
}

fn interface_buffer() -> Vec<u8> {
    vec![
        8, 0, 3, 0, 3, 0, 0, 0, // IFINDEX = 3
        11, 0, 4, 0, 119, 108, 112, 53, 115, 48, 0, 0, // IFNAME = "wlp5s0" and a NUL
        8, 0, 1, 0, 0, 0, 0, 0, // WIPHY = 0
        8, 0, 5, 0, 2, 0, 0, 0, // IFTYPE, not listed
        12, 0, 153, 0, 1, 0, 0, 0, 0, 0, 0, 0, // WDEV = 1
        10, 0, 6, 0, 255, 255, 255, 255, 255, 255, 0, 0, // MAC
        8, 0, 46, 0, 5, 0, 0, 0, // GENERATION, not listed
        5, 0, 83, 0, 0, 0, 0, 0, // 4ADDR, not listed
        8, 0, 38, 0, 108, 9, 0, 0, // WIPHY_FREQ = 2412
        8, 0, 39, 0, 1, 0, 0, 0, // WIPHY_CHANNEL_TYPE, not listed
        8, 0, 159, 0, 1, 0, 0, 0, // CHANNEL_WIDTH = 1
        8, 0, 160, 0, 108, 9, 0, 0, // CENTER_FREQ1, not listed
        8, 0, 98, 0, 164, 6, 0, 0, // WIPHY_TX_POWER_LEVEL = 1700
        11, 0, 52, 0, 101, 100, 117, 114, 111, 97, 109, 0, // SSID = "eduroam"
    ]
}

#[test]
fn interface_from_buffer() {
    let interface: Interface = from_buffer(&interface_buffer()).unwrap();
    assert_eq!(interface, expected_interface());
}

#[test]
fn interface_decoded_twice_is_the_same() {
    let buf = interface_buffer();
    let first: Result<Interface, DecodeError> = from_buffer(&buf);
    let second: Result<Interface, DecodeError> = from_buffer(&buf);
    assert_eq!(first, second);

    let bad = vec![8, 0, 3, 0, 3, 0, 0];
    let first: Result<Interface, DecodeError> = from_buffer(&bad);
    let second: Result<Interface, DecodeError> = from_buffer(&bad);
    assert_eq!(first, Err(DecodeError::TruncatedBuffer));
    assert_eq!(first, second);
}

#[test]
fn interface_of_nothing_is_empty() {
    let interface = Interface::from_handle(&[]).unwrap();
    assert_eq!(interface, Interface::default());
    assert_eq!(interface.index, None);
    assert_eq!(interface.ssid, None);
    let from_bytes: Interface = from_buffer(&[]).unwrap();
    assert_eq!(from_bytes, Interface::default());
}

#[test]
fn interface_present_zero_is_not_absent() {
    let handler = vec![Nlattr {
        nla_len: 8,
        nla_type: NL80211_ATTR_WIPHY,
        payload: vec![0, 0, 0, 0],
    }];
    let interface = Interface::from_handle(&handler).unwrap();
    assert_eq!(interface.phy, Some(0));
    assert_eq!(interface.index, None);
}

#[test]
fn interface_last_occurrence_wins() {
    let handler = vec![
        Nlattr { nla_len: 8, nla_type: NL80211_ATTR_IFINDEX, payload: vec![3, 0, 0, 0] },
        Nlattr { nla_len: 8, nla_type: NL80211_ATTR_WIPHY_FREQ, payload: vec![108, 9, 0, 0] },
        Nlattr { nla_len: 8, nla_type: NL80211_ATTR_IFINDEX, payload: vec![7, 0, 0, 0] },
    ];
    let interface = Interface::from_handle(&handler).unwrap();
    assert_eq!(interface.index, Some(7));
    assert_eq!(interface.frequency, Some(2412));
}

#[test]
fn interface_unlisted_tags_change_nothing() {
    let known = vec![
        Nlattr { nla_len: 8, nla_type: NL80211_ATTR_IFINDEX, payload: vec![3, 0, 0, 0] },
        Nlattr { nla_len: 10, nla_type: NL80211_ATTR_MAC, payload: vec![1, 2, 3, 4, 5, 6] },
    ];
    let with_unlisted = vec![
        Nlattr { nla_len: 7, nla_type: 0x1234, payload: vec![9, 9, 9] },
        known[0].clone(),
        Nlattr { nla_len: 4, nla_type: NL80211_ATTR_IFTYPE, payload: vec![] },
        known[1].clone(),
        Nlattr { nla_len: 5, nla_type: NL80211_ATTR_4ADDR, payload: vec![0] },
    ];
    assert_eq!(Interface::from_handle(&with_unlisted), Interface::from_handle(&known));
    assert_eq!(Interface::from_handle(&known).unwrap().index, Some(3));
}

#[test]
fn interface_mac_of_five_bytes_is_an_error() {
    let handler = vec![
        Nlattr { nla_len: 8, nla_type: NL80211_ATTR_IFINDEX, payload: vec![3, 0, 0, 0] },
        Nlattr { nla_len: 9, nla_type: NL80211_ATTR_MAC, payload: vec![255, 255, 255, 255, 255] },
    ];
    assert_eq!(
        Interface::from_handle(&handler),
        Err(DecodeError::InvalidAddressLength { actual: 5 })
    );
    let buf = vec![9, 0, 6, 0, 255, 255, 255, 255, 255, 0, 0, 0];
    let from_bytes: Result<Interface, DecodeError> = from_buffer(&buf);
    assert_eq!(from_bytes, Err(DecodeError::InvalidAddressLength { actual: 5 }));
}

#[test]
fn interface_mac_of_eight_bytes_is_kept() {
    let handler = vec![Nlattr {
        nla_len: 12,
        nla_type: NL80211_ATTR_MAC,
        payload: vec![1, 2, 3, 4, 5, 6, 7, 8],
    }];
    let interface = Interface::from_handle(&handler).unwrap();
    assert_eq!(interface.mac, Some(MacAddr::V8([1, 2, 3, 4, 5, 6, 7, 8])));
}

#[test]
fn interface_index_of_five_bytes_is_an_error() {
    let handler = vec![Nlattr {
        nla_len: 9,
        nla_type: NL80211_ATTR_IFINDEX,
        payload: vec![3, 0, 0, 0, 0],
    }];
    assert_eq!(
        Interface::from_handle(&handler),
        Err(DecodeError::LengthMismatch { expected: 4, actual: 5 })
    );
}

#[test]
fn interface_wdev_of_four_bytes_is_an_error() {
    let handler = vec![Nlattr {
        nla_len: 8,
        nla_type: NL80211_ATTR_WDEV,
        payload: vec![1, 0, 0, 0],
    }];
    assert_eq!(
        Interface::from_handle(&handler),
        Err(DecodeError::LengthMismatch { expected: 8, actual: 4 })
    );
}

#[test]
fn interface_error_is_not_mended_by_a_later_attribute() {
    let handler = vec![
        Nlattr { nla_len: 6, nla_type: NL80211_ATTR_IFINDEX, payload: vec![3, 0] },
        Nlattr { nla_len: 8, nla_type: NL80211_ATTR_IFINDEX, payload: vec![3, 0, 0, 0] },
    ];
    assert_eq!(
        Interface::from_handle(&handler),
        Err(DecodeError::LengthMismatch { expected: 4, actual: 2 })
    );
}

#[test]
fn interface_flag_bits_are_no_part_of_the_tag() {
    // IFINDEX with the "nested" and the "network byte order" flag set.
    let buf = vec![8, 0, 3, 0xC0, 3, 0, 0, 0];
    let interface: Interface = from_buffer(&buf).unwrap();
    assert_eq!(interface.index, Some(3));
}

#[test]
fn interface_unlisted_attribute_in_the_buffer_changes_nothing() {
    let before = [8, 0, 3, 0, 3, 0, 0, 0];
    let unlisted = [7, 0, 5, 0, 9, 9, 9, 0];
    let after = [8, 0, 38, 0, 108, 9, 0, 0];
    let mut with: Vec<u8> = before.to_vec();
    with.extend_from_slice(&unlisted);
    with.extend_from_slice(&after);
    let mut without: Vec<u8> = before.to_vec();
    without.extend_from_slice(&after);
    let first: Interface = from_buffer(&with).unwrap();
    let second: Interface = from_buffer(&without).unwrap();
    assert_eq!(first, second);
    assert_eq!(first.index, Some(3));
    assert_eq!(first.frequency, Some(2412));
}
