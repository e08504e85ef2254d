use lib::register::protocols_from_str;
use lib::register::IpVersion;
use lib::register::Protocol;
use lib::register::Protocols;
use lib::register::RegisterBuilder;

#[test]
fn ip_versions() {
    assert_eq!(IpVersion::from_str("ipv4"), Ok(IpVersion::V4));
    assert_eq!(IpVersion::from_str("ipv6"), Ok(IpVersion::V6));
    assert!(IpVersion::from_str("ipv5").is_err());
    assert_eq!(IpVersion::V4.index(), 0);
    assert_eq!(IpVersion::V6.index(), 1);
}

#[test]
fn protocols() {
    assert_eq!(Protocol::from_str("ipv4"), Ok(Protocol::Ipv4));
    assert!(Protocol::from_str("tcp").is_err());
    let none = Protocols::none();
    let all = Protocols::all();
    assert!(!none.contains(Protocol::Ipv4) && !none.contains(Protocol::Ipv6));
    assert!(all.contains(Protocol::Ipv4) && all.contains(Protocol::Ipv6));
    let v4 = Protocols::from_protocol(Protocol::Ipv4);
    assert!(v4.contains(Protocol::Ipv4) && !v4.contains(Protocol::Ipv6));
    let both = v4.union(Protocols::from_protocol(Protocol::Ipv6));
    assert_eq!(both, all);
}

#[test]
fn protocols_parse() {
    assert_eq!(protocols_from_str("none").unwrap(), Protocols::none());
    assert_eq!(protocols_from_str("all").unwrap(), Protocols::all());
    assert_eq!(protocols_from_str("ipv6").unwrap(), Protocols::from_protocol(Protocol::Ipv6));
    assert_eq!(protocols_from_str("ipv4,ipv6").unwrap(), Protocols::all());
    assert_eq!(protocols_from_str("ipv4,foo").unwrap_err().0, b"foo".to_vec());
}

#[test]
fn register_builder() {
    let b = RegisterBuilder::new()
        .require_external_heartbeats()
        .register_url("https://master1.ddnet.org/ddnet/15/register".to_string())
        .user_agent("test".to_string())
        .community_token("ddtc_0".to_string());
    let _ = b.clone();
}
