use nl80211::attr::{
    NL80211_ATTR_BSS, NL80211_ATTR_GENERATION, NL80211_ATTR_IFINDEX, NL80211_ATTR_WDEV,
};
use nl80211::{from_buffer, Bss, DecodeError, FromNlAttributeHandle, MacAddr, Nlattr};

fn bss_payload() -> Vec<u8> {
    vec![
        10, 0, 1, 0, 255, 255, 255, 255, 255, 255, 0, 0, 4, 0, 14, 0, 12, 0, 3, 0, 132, 12, 93,
        163, 39, 0, 0, 0, 95, 1, 6, 0, 0, 8, 83, 70, 82, 45, 49, 99, 50, 56, 1, 8, 130, 132,
        139, 150, 36, 48, 72, 108, 3, 1, 1, 7, 6, 68, 69, 32, 1, 13, 20, 32, 1, 0, 35, 2, 16,
        0, 42, 1, 0, 50, 4, 12, 18, 24, 96, 48, 24, 1, 0, 0, 15, 172, 2, 2, 0, 0, 15, 172, 4,
        0, 15, 172, 2, 1, 0, 0, 15, 172, 2, 12, 0, 11, 5, 1, 0, 80, 0, 0, 70, 5, 114, 8, 1, 0,
        0, 45, 26, 188, 9, 27, 255, 255, 0, 0, 0, 0, 0, 0, 0, 0, 0, 0, 0, 0, 0, 0, 0, 0, 0, 0,
        0, 0, 0, 61, 22, 1, 8, 4, 0, 0, 0, 0, 0, 0, 0, 0, 0, 0, 0, 0, 0, 0, 0, 0, 0, 0, 0, 127,
        8, 4, 0, 8, 0, 0, 0, 0, 64, 221, 131, 0, 80, 242, 4, 16, 74, 0, 1, 16, 16, 68, 0, 1, 2,
        16, 59, 0, 1, 3, 16, 71, 0, 16, 65, 133, 194, 155, 156, 12, 135, 126, 154, 135, 125,
        82, 84, 30, 42, 138, 16, 33, 0, 8, 83, 97, 103, 101, 109, 99, 111, 109, 16, 35, 0, 8,
        83, 97, 103, 101, 109, 99, 111, 109, 16, 36, 0, 6, 49, 50, 51, 52, 53, 54, 16, 66, 0,
        7, 48, 48, 48, 48, 48, 48, 49, 16, 84, 0, 8, 0, 6, 0, 80, 242, 4, 0, 1, 16, 17, 0, 10,
        83, 97, 103, 101, 109, 99, 111, 109, 65, 80, 16, 8, 0, 2, 32, 8, 16, 60, 0, 1, 3, 16,
        73, 0, 6, 0, 55, 42, 0, 1, 32, 221, 9, 0, 16, 24, 2, 1, 0, 12, 0, 0, 221, 26, 0, 80,
        242, 1, 1, 0, 0, 80, 242, 2, 2, 0, 0, 80, 242, 4, 0, 80, 242, 2, 1, 0, 0, 80, 242, 2,
        221, 24, 0, 80, 242, 2, 1, 1, 132, 0, 3, 164, 0, 0, 39, 164, 0, 0, 66, 67, 94, 0, 98,
        50, 47, 0, 0, 12, 0, 13, 0, 187, 118, 116, 163, 39, 0, 0, 0, 19, 1, 11, 0, 0, 8, 83,
        70, 82, 45, 49, 99, 50, 56, 1, 8, 130, 132, 139, 150, 36, 48, 72, 108, 3, 1, 1, 5, 4,
        0, 1, 0, 0, 7, 6, 68, 69, 32, 1, 13, 20, 32, 1, 0, 35, 2, 16, 0, 42, 1, 0, 50, 4, 12,
        18, 24, 96, 48, 24, 1, 0, 0, 15, 172, 2, 2, 0, 0, 15, 172, 4, 0, 15, 172, 2, 1, 0, 0,
        15, 172, 2, 12, 0, 11, 5, 1, 0, 80, 0, 0, 70, 5, 114, 8, 1, 0, 0, 45, 26, 188, 9, 27,
        255, 255, 0, 0, 0, 0, 0, 0, 0, 0, 0, 0, 0, 0, 0, 0, 0, 0, 0, 0, 0, 0, 0, 61, 22, 1, 8,
        4, 0, 0, 0, 0, 0, 0, 0, 0, 0, 0, 0, 0, 0, 0, 0, 0, 0, 0, 0, 127, 8, 4, 0, 8, 0, 0, 0,
        0, 64, 221, 49, 0, 80, 242, 4, 16, 74, 0, 1, 16, 16, 68, 0, 1, 2, 16, 71, 0, 16, 65,
        133, 194, 155, 156, 12, 135, 126, 154, 135, 125, 82, 84, 30, 42, 138, 16, 60, 0, 1, 3,
        16, 73, 0, 6, 0, 55, 42, 0, 1, 32, 221, 9, 0, 16, 24, 2, 1, 0, 12, 0, 0, 221, 26, 0,
        80, 242, 1, 1, 0, 0, 80, 242, 2, 2, 0, 0, 80, 242, 4, 0, 80, 242, 2, 1, 0, 0, 80, 242,
        2, 221, 24, 0, 80, 242, 2, 1, 1, 132, 0, 3, 164, 0, 0, 39, 164, 0, 0, 66, 67, 94, 0,
        98, 50, 47, 0, 0, 6, 0, 4, 0, 100, 0, 0, 0, 6, 0, 5, 0, 17, 21, 0, 0, 8, 0, 2, 0, 108,
        9, 0, 0, 8, 0, 12, 0, 0, 0, 0, 0, 8, 0, 10, 0, 100, 0, 0, 0, 8, 0, 7, 0, 76, 235, 255,
        255, 8, 0, 9, 0, 1, 0, 0, 0,
    ]
}

fn expected_bss() -> Bss {
    Bss {
        bssid: Some(MacAddr::from([0xFF, 0xFF, 0xFF, 0xFF, 0xFF, 0xFF])),
        frequency: Some(2412),
        beacon_interval: Some(100),
        seen_ms_ago: Some(100),
        status: Some(true),
        signal: Some(-5300),
    }
}

#[test]
fn test_parse() {
    let handler = vec![
        Nlattr {
            nla_len: 8,
            nla_type: NL80211_ATTR_GENERATION,
            payload: vec![28, 4, 0, 0],
        },
        Nlattr {
            nla_len: 8,
            nla_type: NL80211_ATTR_IFINDEX,
            payload: vec![3, 0, 0, 0],
        },
        Nlattr {
            nla_len: 12,
            nla_type: NL80211_ATTR_WDEV,
            payload: vec![1, 0, 0, 0, 0, 0, 0, 0],
        },
        Nlattr {
            nla_len: 728,
            nla_type: NL80211_ATTR_BSS,
            payload: bss_payload(),
        },
    ];

    let bss = Bss::from_handle(&handler).unwrap();
    let expected_bss = expected_bss();

    assert_eq!(bss, expected_bss)
}

#[test]
fn bss_from_buffer() {
    let mut buf: Vec<u8> = vec![8, 0, 46, 0, 28, 4, 0, 0, 8, 0, 3, 0, 3, 0, 0, 0];
    buf.extend_from_slice(&[216, 2, 47, 0]);
    buf.extend_from_slice(&bss_payload());
    let bss: Bss = from_buffer(&buf).unwrap();
    assert_eq!(bss, expected_bss());
}

#[test]
fn bss_of_nothing_is_empty() {
    let bss = Bss::from_handle(&[]).unwrap();
    assert_eq!(bss, Bss::default());
    assert_eq!(bss.bssid, None);
    assert_eq!(bss.status, None);
}

#[test]
fn bss_status_zero_is_false() {
    let info = vec![8, 0, 9, 0, 0, 0, 0, 0];
    let handler = vec![Nlattr { nla_len: 12, nla_type: NL80211_ATTR_BSS, payload: info }];
    let bss = Bss::from_handle(&handler).unwrap();
    assert_eq!(bss.status, Some(false));
}

#[test]
fn bss_status_other_than_one_is_true() {
    let info = vec![8, 0, 9, 0, 0, 0, 2, 0];
    let handler = vec![Nlattr { nla_len: 12, nla_type: NL80211_ATTR_BSS, payload: info }];
    let bss = Bss::from_handle(&handler).unwrap();
    assert_eq!(bss.status, Some(true));
}

#[test]
fn bss_attributes_outside_the_container_are_passed_over() {
    // FREQUENCY has tag 2 inside BSS; at the top the same tag says nothing.
    let handler = vec![Nlattr { nla_len: 8, nla_type: 2, payload: vec![108, 9, 0, 0] }];
    let bss = Bss::from_handle(&handler).unwrap();
    assert_eq!(bss, Bss::default());
}

#[test]
fn bss_last_frequency_wins() {
    let info = vec![8, 0, 2, 0, 108, 9, 0, 0, 8, 0, 2, 0, 113, 9, 0, 0];
    let handler = vec![Nlattr { nla_len: 20, nla_type: NL80211_ATTR_BSS, payload: info }];
    let bss = Bss::from_handle(&handler).unwrap();
    assert_eq!(bss.frequency, Some(2417));
}

#[test]
fn bss_later_container_lays_over_the_earlier() {
    let first = vec![8, 0, 2, 0, 108, 9, 0, 0, 6, 0, 4, 0, 100, 0, 0, 0];
    let second = vec![8, 0, 2, 0, 113, 9, 0, 0];
    let handler = vec![
        Nlattr { nla_len: 20, nla_type: NL80211_ATTR_BSS, payload: first },
        Nlattr { nla_len: 12, nla_type: NL80211_ATTR_BSS, payload: second },
    ];
    let bss = Bss::from_handle(&handler).unwrap();
    assert_eq!(bss.frequency, Some(2417));
    assert_eq!(bss.beacon_interval, Some(100));
}

#[test]
fn bss_beacon_interval_of_four_bytes_is_an_error() {
    let info = vec![8, 0, 4, 0, 100, 0, 0, 0];
    let handler = vec![Nlattr { nla_len: 12, nla_type: NL80211_ATTR_BSS, payload: info }];
    assert_eq!(
        Bss::from_handle(&handler),
        Err(DecodeError::LengthMismatch { expected: 2, actual: 4 })
    );
}

#[test]
fn bss_bssid_of_five_bytes_is_an_error() {
    let info = vec![9, 0, 1, 0, 1, 2, 3, 4, 5, 0, 0, 0];
    let handler = vec![Nlattr { nla_len: 16, nla_type: NL80211_ATTR_BSS, payload: info }];
    assert_eq!(
        Bss::from_handle(&handler),
        Err(DecodeError::InvalidAddressLength { actual: 5 })
    );
}

#[test]
fn bss_truncated_container_is_an_error() {
    let info = vec![8, 0, 2, 0, 108, 9];
    let handler = vec![Nlattr { nla_len: 10, nla_type: NL80211_ATTR_BSS, payload: info }];
    assert_eq!(Bss::from_handle(&handler), Err(DecodeError::TruncatedBuffer));
}

#[test]
fn bss_unlisted_tag_inside_the_container_is_passed_over() {
    // Tag 5 holds two bytes and is not listed; FREQUENCY follows.
    let info = vec![6, 0, 5, 0, 17, 21, 0, 0, 8, 0, 2, 0, 108, 9, 0, 0];
    let handler = vec![Nlattr { nla_len: 20, nla_type: NL80211_ATTR_BSS, payload: info }];
    let bss = Bss::from_handle(&handler).unwrap();
    assert_eq!(bss.frequency, Some(2412));
}
