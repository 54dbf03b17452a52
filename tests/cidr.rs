use rustmap::cidr::split_range_text;
use rustmap::{IpAddr, IpAddrRange};

#[test]
fn test_first_addr() {
    assert_eq!(
        IpAddrRange::new(IpAddr::V4(0xFFFFFFFFu32), 24).first_addr(),
        IpAddr::V4(0xFFFFFF00u32)
    );

    assert_eq!(
        IpAddrRange::new(IpAddr::V6(0xFFFFFFFFFFFFFFFFFFFFFFFFFFFFFFFFu128), 112).first_addr(),
        IpAddr::V6(0xFFFFFFFFFFFFFFFFFFFFFFFFFFFF0000u128)
    );
}

#[test]
fn test_last_addr() {
    assert_eq!(
        IpAddrRange::new(IpAddr::V4(0x00000000u32), 24).last_addr(),
        IpAddr::V4(0x000000FFu32)
    );

    assert_eq!(
        IpAddrRange::new(IpAddr::V6(0x00000000000000000000000000000000u128), 112).last_addr(),
        IpAddr::V6(0x0000000000000000000000000000FFFFu128)
    );
}

#[test]
fn test_iter() {
    let range = IpAddrRange::new(IpAddr::V4(0xC0A80180), 24);

    let first = range.first_addr();
    let last = range.last_addr();

    assert_eq!(range.iter().next(), Some(first));
    assert_eq!(range.iter().last(), Some(last));

    let mut it = range.iter();
    while let Some(ip) = it.next() {
        assert!(ip >= first && ip <= last);
    }
}

fn count(range: &IpAddrRange) -> u64 {
    let mut it = range.iter();
    let mut n: u64 = 0;
    while it.next().is_some() {
        n += 1;
    }
    n
}

#[test]
fn slash_24_has_256_addresses() {
    let range = IpAddrRange::new(IpAddr::V4(0x01020304), 24);
    assert_eq!(range.first_addr(), IpAddr::V4(0x01020300));
    assert_eq!(range.last_addr(), IpAddr::V4(0x010203FF));
    assert_eq!(count(&range), 256);
}

#[test]
fn counts_follow_prefix_length() {
    assert_eq!(count(&IpAddrRange::new(IpAddr::V4(0x0A000001), 32)), 1);
    assert_eq!(count(&IpAddrRange::new(IpAddr::V4(0x0A000001), 30)), 4);
    assert_eq!(count(&IpAddrRange::new(IpAddr::V6(1), 128)), 1);
    assert_eq!(count(&IpAddrRange::new(IpAddr::V6(0x20010db8 << 96), 120)), 256);
}

#[test]
fn walk_stops_at_the_largest_address() {
    let range = IpAddrRange::new(IpAddr::V4(u32::MAX), 31);
    let mut it = range.iter();
    assert_eq!(it.next(), Some(IpAddr::V4(u32::MAX - 1)));
    assert_eq!(it.next(), Some(IpAddr::V4(u32::MAX)));
    assert_eq!(it.next(), None);
    assert_eq!(it.next(), None);

    let v6 = IpAddrRange::new(IpAddr::V6(u128::MAX), 128);
    let mut it = v6.iter();
    assert_eq!(it.next(), Some(IpAddr::V6(u128::MAX)));
    assert_eq!(it.next(), None);
    assert_eq!(it.last(), None);
}

#[test]
fn first_and_last_bound_the_address() {
    let addr = IpAddr::V4(0xC0A8017B);
    for mask in 1..=32u8 {
        let r = IpAddrRange::new(addr, mask);
        assert!(r.first_addr() <= addr && addr <= r.last_addr());
    }
    let addr = IpAddr::V6(0x2001_0db8_0000_0000_0000_0000_dead_beef);
    for mask in 1..=128u8 {
        let r = IpAddrRange::new(addr, mask);
        assert!(r.first_addr() <= addr && addr <= r.last_addr());
    }
    let host = IpAddrRange::new(addr, 128);
    assert_eq!(host.first_addr(), addr);
    assert_eq!(host.last_addr(), addr);
}

#[test]
fn try_new_refuses_invalid_masks() {
    assert_eq!(
        IpAddrRange::try_new(IpAddr::V4(1), 0),
        Err(String::from("mask cannot be 0"))
    );
    assert_eq!(
        IpAddrRange::try_new(IpAddr::V4(1), 33),
        Err(String::from("mask cannot be more than 32 for an IPv4 address"))
    );
    assert_eq!(
        IpAddrRange::try_new(IpAddr::V6(1), 129),
        Err(String::from("mask cannot be more than 128 for an IPv6 address"))
    );
    assert_eq!(
        IpAddrRange::try_new(IpAddr::V6(1), 33),
        Ok(IpAddrRange::new(IpAddr::V6(1), 33))
    );
}

#[test]
fn parse_prefix_parts() {
    let addr = IpAddr::V4(0xC0A80101);

    let (head, tail) = split_range_text("192.168.1.1");
    assert_eq!((head, tail), ("192.168.1.1", None));
    assert_eq!(IpAddrRange::from_parts(addr, tail), Ok(IpAddrRange::new(addr, 32)));
    assert_eq!(IpAddrRange::from_parts(addr, tail), Ok(IpAddrRange::from_addr(addr)));

    let (head, tail) = split_range_text("192.168.1.1/12");
    assert_eq!((head, tail), ("192.168.1.1", Some("12")));
    assert_eq!(IpAddrRange::from_parts(addr, tail), Ok(IpAddrRange::new(addr, 12)));

    let (head, tail) = split_range_text("::1/128");
    assert_eq!((head, tail), ("::1", Some("128")));
    assert_eq!(
        IpAddrRange::from_parts(IpAddr::V6(1), tail),
        Ok(IpAddrRange::new(IpAddr::V6(1), 128))
    );

    let (_, tail) = split_range_text("192.168.1.1/");
    assert_eq!(
        IpAddrRange::from_parts(addr, tail),
        Err(String::from("cannot parse integer from empty string"))
    );
    let (_, tail) = split_range_text("192.168.1.1/0");
    assert_eq!(IpAddrRange::from_parts(addr, tail), Err(String::from("mask cannot be 0")));
    let (_, tail) = split_range_text("192.168.1.1/33");
    assert_eq!(
        IpAddrRange::from_parts(addr, tail),
        Err(String::from("mask cannot be more than 32 for an IPv4 address"))
    );
    let (_, tail) = split_range_text("::1/129");
    assert_eq!(
        IpAddrRange::from_parts(IpAddr::V6(1), tail),
        Err(String::from("mask cannot be more than 128 for an IPv6 address"))
    );
    assert!(IpAddrRange::from_parts(addr, Some("x4")).is_err());
    assert!(IpAddrRange::from_parts(addr, Some("256")).is_err());
    assert_eq!(IpAddrRange::from_parts(addr, Some("+08")), Ok(IpAddrRange::new(addr, 8)));
}

#[test]
fn text_round_trip() {
    let r = IpAddrRange::new(IpAddr::V4(0x0A000001), 8);
    let text = r.to_text("10.0.0.1");
    assert_eq!(text, "10.0.0.1/8");
    let (head, tail) = split_range_text(&text);
    assert_eq!(head, "10.0.0.1");
    assert_eq!(IpAddrRange::from_parts(IpAddr::V4(0x0A000001), tail), Ok(r));

    let host = IpAddrRange::from_addr(IpAddr::V6(1));
    assert_eq!(host.to_text("::1"), "::1/128");
}

#[test]
fn setters_replace_fields() {
    let mut r = IpAddrRange::new(IpAddr::V4(5), 24);
    r.set_mask(16);
    assert_eq!(*r.mask(), 16);
    r.set_addr(IpAddr::V6(7));
    assert_eq!(*r.addr(), IpAddr::V6(7));
    assert!(IpAddr::V4(0).is_ipv4());
    assert!(!IpAddr::V6(0).is_ipv4());
}
