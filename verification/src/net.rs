use vstd::prelude::*;

verus! {

// An address is modelled as `(v6, bits)`: the address family and the address
// value read as an unsigned integer (IPv4 in the low 32 bits). A network is
// `(v6, bits, prefix)`: the written address plus its prefix length.

/// What the outside parser makes of a network given as `address/prefix` text:
/// `None` where the text is not a well-formed network, else the family, the
/// address bits and the prefix length.
pub uninterp spec fn net_parsed(s: Seq<char>) -> Option<(bool, u128, u8)>;

/// What the outside parser makes of a bare host address text: `None` where
/// the text is not a well-formed address, else the family and address bits.
pub uninterp spec fn addr_parsed(s: Seq<char>) -> Option<(bool, u128)>;

/// Relies on `ipnet::IpNet`'s `FromStr`: it accepts exactly the texts of the
/// form `address/prefix`, with the prefix length at most 32 for IPv4 and at
/// most 128 for IPv6, and an IPv4 address value fits in 32 bits.
#[verifier::external_body]
pub fn parse_network(s: &str) -> (r: Option<(bool, u128, u8)>)
    ensures
        r == net_parsed(s@),
        r matches Some(t) ==> (if t.0 {
            t.2 <= 128
        } else {
            t.2 <= 32 && t.1 < 0x1_0000_0000u128
        }),
{
    match s.parse::<ipnet::IpNet>() {
        Ok(ipnet::IpNet::V4(n)) => Some((false, u32::from(n.addr()) as u128, n.prefix_len())),
        Ok(ipnet::IpNet::V6(n)) => Some((true, u128::from(n.addr()), n.prefix_len())),
        Err(_) => None,
    }
}

/// Relies on `ipnet::IpNet`'s `FromStr`, handed the text with a zero prefix
/// length appended: since that parser accepts exactly `address/prefix` and
/// reads the whole text, the call succeeds exactly when `s` is a bare IPv4 or
/// IPv6 host address, and an IPv4 address value fits in 32 bits.
#[verifier::external_body]
pub fn parse_address(s: &str) -> (r: Option<(bool, u128)>)
    ensures
        r == addr_parsed(s@),
        r matches Some(t) ==> (!t.0 ==> t.1 < 0x1_0000_0000u128),
{
    match format!("{}/0", s).parse::<ipnet::IpNet>() {
        Ok(ipnet::IpNet::V4(n)) => Some((false, u32::from(n.addr()) as u128)),
        Ok(ipnet::IpNet::V6(n)) => Some((true, u128::from(n.addr()))),
        Err(_) => None,
    }
}

/// Whether the address `a` lies in the network `net`: the families agree and
/// the address matches the network's address on the first `prefix` bits.
pub open spec fn in_network(a: (bool, u128), net: (bool, u128, u8)) -> bool {
    &&& a.0 == net.0
    &&& (net.2 == 0 || {
        let width: u128 = if net.0 {
            128
        } else {
            32
        };
        let sh: u128 = (width - net.2 as u128) as u128;
        (a.1 >> sh) == (net.1 >> sh)
    })
}

/// Decides `in_network` for a parsed address and a parsed network.
pub fn addr_in_network(a: (bool, u128), net: (bool, u128, u8)) -> (r: bool)
    requires
        net.0 ==> net.2 <= 128,
        !net.0 ==> net.2 <= 32,
    ensures
        r == in_network(a, net),
{
    if a.0 != net.0 {
        false
    } else if net.2 == 0 {
        true
    } else {
        let width: u128 = if net.0 {
            128
        } else {
            32
        };
        let sh: u128 = width - net.2 as u128;
        (a.1 >> sh) == (net.1 >> sh)
    }
}

} // verus!
