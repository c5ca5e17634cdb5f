use sgx_tstd::io::{Error, ErrorKind};
use sgx_tstd::net::{each_addr, htons, ntohs, Shutdown, SocketAddr, AF_INET, AF_INET6};

fn a() -> SocketAddr {
    SocketAddr::V4([10, 0, 0, 1], 80)
}

fn b() -> SocketAddr {
    SocketAddr::V4([10, 0, 0, 2], 80)
}

fn c() -> SocketAddr {
    SocketAddr::V6([0, 0, 0, 0, 0, 0, 0, 0, 0, 0, 0, 0, 0, 0, 0, 1], 8080)
}

fn refused(code: i32) -> Error {
    Error::from_raw_os_error(code)
}

#[test]
fn each_addr_returns_the_first_success() {
    let tried = std::cell::RefCell::new(Vec::new());
    let r = each_addr(Ok(vec![a(), b(), c()]), |addr: Result<&SocketAddr, Error>| {
        let addr = *addr.expect("resolved");
        tried.borrow_mut().push(addr);
        if addr == b() {
            Ok("connected to b")
        } else {
            Err(refused(111))
        }
    });
    assert_eq!(r, Ok("connected to b"));
    assert_eq!(*tried.borrow(), vec![a(), b()]);
}

#[test]
fn each_addr_returns_the_last_error() {
    let r: Result<(), Error> = each_addr(Ok(vec![a(), b()]), |addr: Result<&SocketAddr, Error>| {
        if *addr.expect("resolved") == a() {
            Err(refused(1))
        } else {
            Err(refused(2))
        }
    });
    assert_eq!(r, Err(refused(2)));
}

#[test]
fn each_addr_tries_the_addresses_in_order() {
    let mut tried = Vec::new();
    let r: Result<(), Error> = each_addr(Ok(vec![c(), a(), b()]), |addr: Result<&SocketAddr, Error>| {
        tried.push(*addr.expect("resolved"));
        Err(refused(5))
    });
    assert_eq!(r, Err(refused(5)));
    assert_eq!(tried, vec![c(), a(), b()]);
}

#[test]
fn each_addr_without_addresses_says_so() {
    let r: Result<(), Error> = each_addr(Ok(Vec::new()), |_addr: Result<&SocketAddr, Error>| {
        panic!("there is no address to try")
    });
    let e = r.unwrap_err();
    assert_eq!(e.kind(), ErrorKind::InvalidInput);
    assert_eq!(e.message(), "could not resolve to any addresses");
    assert_eq!(e.raw_os_error(), None);
    assert_eq!(e, Error::new_const(ErrorKind::InvalidInput, "could not resolve to any addresses"));
}

#[test]
fn each_addr_hands_a_failed_resolution_to_the_operation() {
    let calls = std::cell::Cell::new(0);
    let r: Result<u8, Error> = each_addr(Err(refused(9)), |addr: Result<&SocketAddr, Error>| {
        calls.set(calls.get() + 1);
        match addr {
            Ok(_) => Ok(0),
            Err(e) => Err(e),
        }
    });
    assert_eq!(r, Err(refused(9)));
    assert_eq!(calls.get(), 1);
    let r: Result<u8, Error> = each_addr(Err(refused(9)), |_addr: Result<&SocketAddr, Error>| Ok(7));
    assert_eq!(r, Ok(7));
}

#[test]
fn each_addr_with_one_address() {
    let r = each_addr(Ok(vec![a()]), |addr: Result<&SocketAddr, Error>| {
        Ok::<u16, Error>(addr.expect("resolved").port())
    });
    assert_eq!(r, Ok(80));
}

#[test]
fn ports_change_their_byte_order() {
    assert_eq!(htons(0x1234), 0x3412);
    assert_eq!(ntohs(0x3412), 0x1234);
    assert_eq!(htons(80), 0x5000);
    assert_eq!(htons(0), 0);
    assert_eq!(htons(0xffff), 0xffff);
    assert_eq!(htons(0x00ff), 0xff00);
    assert_eq!(htons(80), 80u16.to_be());
    assert_eq!(ntohs(0x5000), u16::from_be(0x5000));
}

#[test]
fn byte_order_round_trips() {
    for port in [0u16, 1, 80, 255, 256, 443, 8080, 0x7fff, 0x8000, 0xfffe, 0xffff] {
        assert_eq!(ntohs(htons(port)), port);
        assert_eq!(htons(ntohs(port)), port);
    }
}

#[test]
fn shutdown_variants_close_different_parts() {
    assert!(Shutdown::Read.closes_read() && !Shutdown::Read.closes_write());
    assert!(!Shutdown::Write.closes_read() && Shutdown::Write.closes_write());
    assert!(Shutdown::Both.closes_read() && Shutdown::Both.closes_write());
    assert_ne!(Shutdown::Read, Shutdown::Write);
    assert_ne!(Shutdown::Read, Shutdown::Both);
    assert_ne!(Shutdown::Write, Shutdown::Both);
}

#[test]
fn socket_addresses_are_checked_against_their_family() {
    let v4 = SocketAddr::from_raw_parts(AF_INET, &[127, 0, 0, 1], 0x5000).expect("four bytes");
    assert_eq!(v4, SocketAddr::V4([127, 0, 0, 1], 80));
    assert_eq!(v4.port(), 80);
    assert_eq!(v4.family(), AF_INET);
    let bytes: Vec<u8> = (1..=16).collect();
    let v6 = SocketAddr::from_raw_parts(AF_INET6, &bytes, 0x901f).expect("sixteen bytes");
    assert_eq!(v6, SocketAddr::V6([1, 2, 3, 4, 5, 6, 7, 8, 9, 10, 11, 12, 13, 14, 15, 16], 8080));
    assert_eq!(v6.family(), AF_INET6);
}

#[test]
fn socket_addresses_of_the_wrong_length_are_refused() {
    let cases: [(u16, usize); 7] =
        [(AF_INET, 0), (AF_INET, 3), (AF_INET, 16), (AF_INET6, 4), (AF_INET6, 15), (0, 4), (1, 16)];
    for (family, len) in cases {
        let e = SocketAddr::from_raw_parts(family, &vec![1u8; len], 0).unwrap_err();
        assert_eq!(e.kind(), ErrorKind::InvalidData);
        assert_eq!(e.message(), "invalid socket address");
    }
}

#[test]
fn socket_addresses_compare_by_value() {
    assert_eq!(a(), SocketAddr::V4([10, 0, 0, 1], 80));
    assert_ne!(a(), b());
    assert_ne!(a(), SocketAddr::V4([10, 0, 0, 1], 81));
    assert_ne!(c(), SocketAddr::V6([0; 16], 8080));
}
