//! Connection kinds and the runtime status of a profile.

use crate::text::{chars_of, lowered, spells};
use std::str::FromStr;
use vstd::prelude::*;

verus! {

/// Runtime state of a profile. A profile file does not say which state its
/// profile is in, so reading one always gives `Unknown`.
#[derive(Debug, Clone, Copy, PartialEq, Eq, Structural)]
pub enum Status {
    Active,
    Enabled,
    Disabled,
    Unknown,
}

impl Default for Status {
    fn default() -> (r: Self)
        ensures
            r == Status::Unknown,
    {
        Status::Unknown
    }
}

/// The kind of connection a profile declares. `Unknown` stands for a kind that
/// is missing or not recognized.
#[derive(Debug, Clone, Copy, PartialEq, Eq, Structural)]
pub enum Connection {
    Ethernet,
    Wireless,
    Bond,
    Bridge,
    Dummy,
    Ppp,
    Pppoe,
    MobilePpp,
    OpenVswitch,
    Tunnel,
    Tuntap,
    Vlan,
    Macvlan,
    Wireguard,
    Unknown,
}

impl Default for Connection {
    fn default() -> (r: Self)
        ensures
            r == Connection::Unknown,
    {
        Connection::Unknown
    }
}

/// The error type of `Connection`'s `FromStr`. Every text names a connection
/// kind, `Unknown` if no other, so no call ever returns this error.
#[derive(Debug, Clone, Copy, PartialEq, Eq, Structural)]
pub struct ConnectionParseError;

impl ToString for ConnectionParseError {
    fn to_string(&self) -> (r: String)
        ensures
            r@ == "Invalid connection type"@,
    {
        "Invalid connection type".to_owned()
    }
}

/// The connection kind that `name` spells, letter case aside.
pub open spec fn kind_of(name: Seq<char>) -> Connection {
    let n = lowered(name);
    if n == "ethernet"@ {
        Connection::Ethernet
    } else if n == "wireless"@ {
        Connection::Wireless
    } else if n == "bond"@ {
        Connection::Bond
    } else if n == "bridge"@ {
        Connection::Bridge
    } else if n == "dummy"@ {
        Connection::Dummy
    } else if n == "ppp"@ {
        Connection::Ppp
    } else if n == "pppoe"@ {
        Connection::Pppoe
    } else if n == "mobile_ppp"@ {
        Connection::MobilePpp
    } else if n == "openvswitch"@ {
        Connection::OpenVswitch
    } else if n == "tunnel"@ {
        Connection::Tunnel
    } else if n == "tuntap"@ {
        Connection::Tuntap
    } else if n == "vlan"@ {
        Connection::Vlan
    } else if n == "macvlan"@ {
        Connection::Macvlan
    } else if n == "wireguard"@ {
        Connection::Wireguard
    } else {
        Connection::Unknown
    }
}

/// The connection kind that the characters `name` spell.
pub fn kind_of_chars(name: &[char]) -> (r: Connection)
    ensures
        r == kind_of(name@),
{
    if spells(name, "ethernet") {
        Connection::Ethernet
    } else if spells(name, "wireless") {
        Connection::Wireless
    } else if spells(name, "bond") {
        Connection::Bond
    } else if spells(name, "bridge") {
        Connection::Bridge
    } else if spells(name, "dummy") {
        Connection::Dummy
    } else if spells(name, "ppp") {
        Connection::Ppp
    } else if spells(name, "pppoe") {
        Connection::Pppoe
    } else if spells(name, "mobile_ppp") {
        Connection::MobilePpp
    } else if spells(name, "openvswitch") {
        Connection::OpenVswitch
    } else if spells(name, "tunnel") {
        Connection::Tunnel
    } else if spells(name, "tuntap") {
        Connection::Tuntap
    } else if spells(name, "vlan") {
        Connection::Vlan
    } else if spells(name, "macvlan") {
        Connection::Macvlan
    } else if spells(name, "wireguard") {
        Connection::Wireguard
    } else {
        Connection::Unknown
    }
}

impl FromStr for Connection {
    type Err = ConnectionParseError;

    /// Reads a connection kind. The result is always `Ok`.
    fn from_str(s: &str) -> (r: Result<Self, Self::Err>)
        ensures
            r == Ok::<Connection, ConnectionParseError>(kind_of(s@)),
    {
        Ok(Connection::from_name(s))
    }
}

impl ToString for Connection {
    /// The name under which the kind is shown.
    fn to_string(&self) -> (r: String)
        ensures
            r@ == self.label(),
    {
        let label = match self {
            Connection::Ethernet => "Ethernet",
            Connection::Wireless => "Wireless",
            Connection::Bond => "Bond",
            Connection::Bridge => "Bridge",
            Connection::Dummy => "Dummy",
            Connection::Ppp => "PPP",
            Connection::Pppoe => "PPPoE",
            Connection::MobilePpp => "Mobile PPP",
            Connection::OpenVswitch => "Open vSwitch",
            Connection::Tunnel => "Tunnel",
            Connection::Tuntap => "TUN/TAP",
            Connection::Vlan => "VLAN",
            Connection::Macvlan => "MACVLAN",
            Connection::Wireguard => "Wireguard",
            Connection::Unknown => "Unknown",
        };
        label.to_owned()
    }
}

impl Connection {
    /// The name under which the kind is shown.
    pub open spec fn label(self) -> Seq<char> {
        match self {
            Connection::Ethernet => "Ethernet"@,
            Connection::Wireless => "Wireless"@,
            Connection::Bond => "Bond"@,
            Connection::Bridge => "Bridge"@,
            Connection::Dummy => "Dummy"@,
            Connection::Ppp => "PPP"@,
            Connection::Pppoe => "PPPoE"@,
            Connection::MobilePpp => "Mobile PPP"@,
            Connection::OpenVswitch => "Open vSwitch"@,
            Connection::Tunnel => "Tunnel"@,
            Connection::Tuntap => "TUN/TAP"@,
            Connection::Vlan => "VLAN"@,
            Connection::Macvlan => "MACVLAN"@,
            Connection::Wireguard => "Wireguard"@,
            Connection::Unknown => "Unknown"@,
        }
    }

    /// The name of the icon that stands for the kind.
    pub open spec fn icon(self) -> Seq<char> {
        match self {
            Connection::Ethernet => "network-wired-symbolic"@,
            Connection::Wireless => "network-wireless-symbolic"@,
            Connection::Bond => "network-bond-symbolic"@,
            Connection::Bridge => "network-bridge-symbolic"@,
            Connection::Dummy => "network-dummy-symbolic"@,
            Connection::Ppp => "network-ppp-symbolic"@,
            Connection::Pppoe => "network-ppp-symbolic"@,
            Connection::MobilePpp => "network-ppp-symbolic"@,
            Connection::OpenVswitch => "network-openvswitch-symbolic"@,
            Connection::Tunnel => "network-tunnel-symbolic"@,
            Connection::Tuntap => "network-tuntap-symbolic"@,
            Connection::Vlan => "network-vlan-symbolic"@,
            Connection::Macvlan => "network-macvlan-symbolic"@,
            Connection::Wireguard => "network-wireguard-symbolic"@,
            Connection::Unknown => "network-unknown-symbolic"@,
        }
    }

    /// Reads a connection kind from its name, in any letter case. A name that
    /// spells no kind gives `Unknown`.
    pub fn from_name(name: &str) -> (r: Connection)
        ensures
            r == kind_of(name@),
    {
        let chars = chars_of(name);
        kind_of_chars(chars.as_slice())
    }

    /// The name of the icon that stands for the kind.
    pub fn icon_name(&self) -> (r: &'static str)
        ensures
            r@ == self.icon(),
    {
        match self {
            Connection::Ethernet => "network-wired-symbolic",
            Connection::Wireless => "network-wireless-symbolic",
            Connection::Bond => "network-bond-symbolic",
            Connection::Bridge => "network-bridge-symbolic",
            Connection::Dummy => "network-dummy-symbolic",
            Connection::Ppp => "network-ppp-symbolic",
            Connection::Pppoe => "network-ppp-symbolic",
            Connection::MobilePpp => "network-ppp-symbolic",
            Connection::OpenVswitch => "network-openvswitch-symbolic",
            Connection::Tunnel => "network-tunnel-symbolic",
            Connection::Tuntap => "network-tuntap-symbolic",
            Connection::Vlan => "network-vlan-symbolic",
            Connection::Macvlan => "network-macvlan-symbolic",
            Connection::Wireguard => "network-wireguard-symbolic",
            Connection::Unknown => "network-unknown-symbolic",
        }
    }
}

} // verus!
