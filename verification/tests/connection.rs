use netti::connection::{kind_of_chars, Connection, ConnectionParseError, Status};

const KINDS: [(&str, Connection, &str, &str); 14] = [
    ("ethernet", Connection::Ethernet, "Ethernet", "network-wired-symbolic"),
    ("wireless", Connection::Wireless, "Wireless", "network-wireless-symbolic"),
    ("bond", Connection::Bond, "Bond", "network-bond-symbolic"),
    ("bridge", Connection::Bridge, "Bridge", "network-bridge-symbolic"),
    ("dummy", Connection::Dummy, "Dummy", "network-dummy-symbolic"),
    ("ppp", Connection::Ppp, "PPP", "network-ppp-symbolic"),
    ("pppoe", Connection::Pppoe, "PPPoE", "network-ppp-symbolic"),
    ("mobile_ppp", Connection::MobilePpp, "Mobile PPP", "network-ppp-symbolic"),
    ("openvswitch", Connection::OpenVswitch, "Open vSwitch", "network-openvswitch-symbolic"),
    ("tunnel", Connection::Tunnel, "Tunnel", "network-tunnel-symbolic"),
    ("tuntap", Connection::Tuntap, "TUN/TAP", "network-tuntap-symbolic"),
    ("vlan", Connection::Vlan, "VLAN", "network-vlan-symbolic"),
    ("macvlan", Connection::Macvlan, "MACVLAN", "network-macvlan-symbolic"),
    ("wireguard", Connection::Wireguard, "Wireguard", "network-wireguard-symbolic"),
];

#[test]
fn every_kind_by_its_name() {
    for (name, kind, _, _) in KINDS {
        assert_eq!(Connection::from_name(name), kind);
    }
}

#[test]
fn names_in_any_letter_case() {
    for (name, kind, _, _) in KINDS {
        assert_eq!(Connection::from_name(&name.to_uppercase()), kind);
        let mut mixed = String::new();
        for (i, c) in name.chars().enumerate() {
            if i % 2 == 0 {
                mixed.push(c.to_ascii_uppercase());
            } else {
                mixed.push(c);
            }
        }
        assert_eq!(Connection::from_name(&mixed), kind, "{}", mixed);
    }
    assert_eq!(Connection::from_name("Wireless"), Connection::Wireless);
    assert_eq!(Connection::from_name("WireGuard"), Connection::Wireguard);
    assert_eq!(Connection::from_name("Mobile_PPP"), Connection::MobilePpp);
}

#[test]
fn names_as_std_lowers_them() {
    let names = [
        "Ethernet", "WIRELESS", "bogus", "", "vlan ", "Mobile_ppp", "mobile-ppp", "PPPoE", "ppp",
        "BRİDGE", "\u{212a}", "wıreless", "TUN/TAP", "tuntap",
    ];
    for name in names {
        let lowered = name.to_lowercase();
        let expected = KINDS
            .iter()
            .find(|kind| kind.0 == lowered)
            .map(|kind| kind.1)
            .unwrap_or(Connection::Unknown);
        assert_eq!(Connection::from_name(name), expected, "{:?}", name);
    }
}

#[test]
fn names_as_std_lowers_them_with_any_character_in_any_place() {
    let mut odd: Vec<char> = Vec::new();
    for n in 0..=0x10FFFFu32 {
        if let Some(c) = char::from_u32(n) {
            if c.to_lowercase().any(|l| l.is_ascii()) {
                odd.push(c);
            }
        }
    }
    assert!(odd.contains(&'W') && odd.contains(&'\u{212a}') && odd.contains(&'\u{130}'));
    for (name, _, _, _) in KINDS {
        let letters: Vec<char> = name.chars().collect();
        for place in 0..letters.len() {
            for &c in &odd {
                let mut changed = letters.clone();
                changed[place] = c;
                let changed: String = changed.into_iter().collect();
                let lowered = changed.to_lowercase();
                let expected = KINDS
                    .iter()
                    .find(|kind| kind.0 == lowered)
                    .map(|kind| kind.1)
                    .unwrap_or(Connection::Unknown);
                assert_eq!(Connection::from_name(&changed), expected, "{:?}", changed);
            }
        }
    }
}

#[test]
fn other_names_are_unknown() {
    for name in ["bogus", "", " ", "ethernet ", " ethernet", "eth", "ethernets", "wifi", "mobile ppp",
        "mobile-ppp", "unknown", "Unknown", "éthernet", "ｗｉｒｅｌｅｓｓ"]
    {
        assert_eq!(Connection::from_name(name), Connection::Unknown, "{:?}", name);
    }
}

#[test]
fn from_str_never_fails() {
    for (name, kind, _, _) in KINDS {
        assert_eq!(name.parse::<Connection>(), Ok(kind));
    }
    assert_eq!("Wireless".parse::<Connection>(), Ok(Connection::Wireless));
    assert_eq!("bogus".parse::<Connection>(), Ok(Connection::Unknown));
    assert_eq!("".parse::<Connection>(), Ok(Connection::Unknown));
}

#[test]
fn kind_of_characters() {
    let name: Vec<char> = "Bridge".chars().collect();
    assert_eq!(kind_of_chars(&name), Connection::Bridge);
    assert_eq!(kind_of_chars(&[]), Connection::Unknown);
}

#[test]
fn labels() {
    for (_, kind, label, _) in KINDS {
        assert_eq!(kind.to_string(), label);
    }
    assert_eq!(Connection::Unknown.to_string(), "Unknown");
}

#[test]
fn icon_names() {
    for (_, kind, _, icon) in KINDS {
        assert_eq!(kind.icon_name(), icon);
    }
    assert_eq!(Connection::Unknown.icon_name(), "network-unknown-symbolic");
}

#[test]
fn defaults() {
    assert_eq!(Connection::default(), Connection::Unknown);
    assert_eq!(Status::default(), Status::Unknown);
}

#[test]
fn parse_error_message() {
    assert_eq!(ConnectionParseError.to_string(), "Invalid connection type");
}
