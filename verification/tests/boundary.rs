use sgx_tstd::boundary::{
    invoke, BoundaryError, BoundaryRequest, BoundaryResponse, Crossing, SharedArena,
};
use sgx_tstd::io::{surface, Error, ErrorKind};

#[test]
fn a_new_arena_is_zeroed_and_free() {
    let arena = SharedArena::new(8);
    assert_eq!(arena.capacity(), 8);
    assert_eq!(arena.available(), 8);
    assert_eq!(arena.shared(), &[0u8; 8]);
}

#[test]
fn copy_out_then_copy_in_returns_the_bytes() {
    let mut arena = SharedArena::new(16);
    let handle = arena.copy_out(b"hello").expect("fits");
    assert_eq!(handle.offset(), 0);
    assert_eq!(handle.len(), 5);
    assert_eq!(arena.available(), 11);
    assert_eq!(&arena.shared()[..5], b"hello");
    assert_eq!(arena.copy_in(&handle, 5), Ok(b"hello".to_vec()));
}

#[test]
fn copy_out_fails_when_the_arena_is_too_small() {
    let mut arena = SharedArena::new(4);
    assert_eq!(arena.copy_out(b"hello"), Err(BoundaryError::CapacityExceeded));
    assert_eq!(arena.available(), 4);
    assert_eq!(arena.shared(), &[0u8; 4]);
    let kept = arena.copy_out(b"abc").expect("fits");
    assert_eq!(arena.copy_out(b"de"), Err(BoundaryError::CapacityExceeded));
    assert_eq!(arena.copy_in(&kept, 3), Ok(b"abc".to_vec()));
    assert!(arena.copy_out(b"d").is_ok());
}

#[test]
fn copy_out_of_exactly_the_capacity_fits() {
    let mut arena = SharedArena::new(5);
    let handle = arena.copy_out(b"hello").expect("fits");
    assert_eq!(arena.available(), 0);
    assert_eq!(arena.copy_in(&handle, 5), Ok(b"hello".to_vec()));
    let empty = arena.copy_out(b"").expect("nothing always fits");
    assert_eq!(empty.len(), 0);
    assert_eq!(arena.copy_in(&empty, 0), Ok(Vec::new()));
}

#[test]
fn copy_in_refuses_a_length_that_is_not_the_regions() {
    let mut arena = SharedArena::new(16);
    let handle = arena.copy_out(b"hello").expect("fits");
    assert_eq!(arena.copy_in(&handle, 4), Err(BoundaryError::UntrustedSizeMismatch));
    assert_eq!(arena.copy_in(&handle, 6), Err(BoundaryError::UntrustedSizeMismatch));
    assert_eq!(arena.copy_in(&handle, 0), Err(BoundaryError::UntrustedSizeMismatch));
    assert_eq!(arena.copy_in(&handle, usize::MAX), Err(BoundaryError::UntrustedSizeMismatch));
}

#[test]
fn copy_in_refuses_a_region_outside_the_arena() {
    let mut large = SharedArena::new(16);
    let _first = large.copy_out(b"0123456789").expect("fits");
    let beyond = large.copy_out(b"abcdef").expect("fits");
    let small = SharedArena::new(12);
    assert_eq!(small.copy_in(&beyond, 6), Err(BoundaryError::UntrustedSizeMismatch));
}

#[test]
fn regions_of_two_crossings_do_not_touch() {
    let mut arena = SharedArena::new(32);
    let first = arena.copy_out(&[0xAA; 8]).expect("fits");
    let second = arena.copy_out(&[0x55; 8]).expect("fits");
    assert!(first.offset() + first.len() <= second.offset());
    assert_eq!(arena.copy_in(&first, 8), Ok(vec![0xAA; 8]));
    assert_eq!(arena.copy_in(&second, 8), Ok(vec![0x55; 8]));
    let third = arena.copy_out(&[0x33; 16]).expect("fits");
    assert_eq!(arena.copy_in(&first, 8), Ok(vec![0xAA; 8]));
    assert_eq!(arena.copy_in(&second, 8), Ok(vec![0x55; 8]));
    assert_eq!(arena.copy_in(&third, 16), Ok(vec![0x33; 16]));
}

#[test]
fn releasing_every_region_frees_the_arena() {
    let mut arena = SharedArena::new(8);
    let first = arena.copy_out(b"abcd").expect("fits");
    let second = arena.copy_out(b"efgh").expect("fits");
    assert_eq!(arena.available(), 0);
    arena.release(first);
    assert_eq!(arena.available(), 0);
    arena.release(second);
    assert_eq!(arena.available(), 8);
    assert_eq!(arena.shared(), b"abcdefgh");
}

#[test]
fn the_region_claimed_last_is_given_back_at_once() {
    let mut arena = SharedArena::new(8);
    let first = arena.copy_out(b"abcd").expect("fits");
    let second = arena.copy_out(b"ef").expect("fits");
    arena.release(second);
    assert_eq!(arena.available(), 4);
    let again = arena.claim(4).expect("fits");
    assert_eq!(again.offset(), 4);
    assert_eq!(arena.copy_in(&first, 4), Ok(b"abcd".to_vec()));
}

#[test]
fn claim_zeroed_leaves_nothing_behind() {
    let mut arena = SharedArena::new(8);
    let old = arena.copy_out(b"secret!!").expect("fits");
    arena.release(old);
    let fresh = arena.claim_zeroed(6).expect("fits");
    assert_eq!(arena.copy_in(&fresh, 6), Ok(vec![0; 6]));
    assert_eq!(arena.shared(), b"\0\0\0\0\0\0!!");
    assert_eq!(arena.claim_zeroed(3), Err(BoundaryError::CapacityExceeded));
}

#[test]
fn host_store_writes_anywhere_inside_the_arena() {
    let mut arena = SharedArena::new(8);
    assert!(arena.host_store(2, b"abc"));
    assert_eq!(arena.shared(), b"\0\0abc\0\0\0");
    assert!(arena.host_store(5, b"xyz"));
    assert_eq!(arena.shared(), b"\0\0abcxyz");
    assert!(!arena.host_store(6, b"xyz"));
    assert!(!arena.host_store(9, b""));
    assert!(!arena.host_store(usize::MAX, b"ab"));
    assert_eq!(arena.shared(), b"\0\0abcxyz");
    assert!(arena.host_store(8, b""));
}

#[test]
fn a_crossing_round_trips_request_and_response() {
    let mut arena = SharedArena::new(32);
    let crossing = Crossing::begin(&mut arena, 7, b"ping", 4).expect("fits");
    let sent = crossing.request();
    assert_eq!(
        sent,
        BoundaryRequest {
            op_code: 7,
            request_offset: 0,
            request_len: 4,
            response_offset: 4,
            response_len: 4,
        }
    );
    assert_eq!(&arena.shared()[..8], b"ping\0\0\0\0");
    assert!(arena.host_store(sent.response_offset, b"pong"));
    let reply = BoundaryResponse { status: 0, response_len: 4 };
    assert_eq!(crossing.complete(&mut arena, reply), Ok(b"pong".to_vec()));
    assert_eq!(arena.available(), 32);
}

#[test]
fn a_crossing_that_does_not_fit_changes_nothing() {
    let mut arena = SharedArena::new(8);
    let r = Crossing::begin(&mut arena, 1, b"12345", 4);
    assert_eq!(r.err(), Some(BoundaryError::CapacityExceeded));
    assert_eq!(arena.available(), 8);
    assert_eq!(arena.shared(), &[0u8; 8]);
    assert!(Crossing::begin(&mut arena, 1, b"1234", 4).is_ok());
    let r = Crossing::begin(&mut arena, 1, b"", usize::MAX);
    assert_eq!(r.err(), Some(BoundaryError::CapacityExceeded));
}

#[test]
fn the_status_is_looked_at_first() {
    let mut arena = SharedArena::new(32);
    let crossing = Crossing::begin(&mut arena, 7, b"ping", 4).expect("fits");
    let reply = BoundaryResponse { status: -13, response_len: 99 };
    assert_eq!(crossing.complete(&mut arena, reply), Err(BoundaryError::HostRejected(-13)));
    assert_eq!(arena.available(), 32);
}

#[test]
fn a_declared_length_that_is_not_the_regions_is_refused() {
    for declared in [0usize, 3, 5, 32, usize::MAX] {
        let mut arena = SharedArena::new(32);
        let crossing = Crossing::begin(&mut arena, 7, b"ping", 4).expect("fits");
        assert!(arena.host_store(4, b"pong"));
        let reply = BoundaryResponse { status: 0, response_len: declared };
        assert_eq!(
            crossing.complete(&mut arena, reply),
            Err(BoundaryError::UntrustedSizeMismatch)
        );
        assert_eq!(arena.available(), 32);
    }
}

#[test]
fn interleaved_crossings_keep_their_payloads_apart() {
    let mut arena = SharedArena::new(64);
    let first = Crossing::begin(&mut arena, 1, &[0xAA; 8], 8).expect("fits");
    let second = Crossing::begin(&mut arena, 2, &[0x55; 8], 8).expect("fits");
    let a = first.request();
    let b = second.request();
    assert!(a.response_offset + a.response_len <= b.request_offset);
    assert_eq!(&arena.shared()[a.request_offset..a.request_offset + 8], &[0xAA; 8]);
    assert_eq!(&arena.shared()[b.request_offset..b.request_offset + 8], &[0x55; 8]);
    assert!(arena.host_store(b.response_offset, &[0x5A; 8]));
    assert!(arena.host_store(a.response_offset, &[0xA5; 8]));
    let ok = BoundaryResponse { status: 0, response_len: 8 };
    assert_eq!(first.complete(&mut arena, ok), Ok(vec![0xA5; 8]));
    assert_eq!(&arena.shared()[b.request_offset..b.request_offset + 8], &[0x55; 8]);
    assert_eq!(second.complete(&mut arena, ok), Ok(vec![0x5A; 8]));
    assert_eq!(arena.available(), 64);
}

#[test]
fn many_interleaved_crossings_see_only_their_own_bytes() {
    let mut arena = SharedArena::new(64);
    let ok = BoundaryResponse { status: 0, response_len: 8 };
    for round in 0..50u8 {
        let mine = 0xA0 ^ round;
        let theirs = 0x50 ^ round;
        let first = Crossing::begin(&mut arena, 1, &[mine; 8], 8).expect("fits");
        let second = Crossing::begin(&mut arena, 2, &[theirs; 8], 8).expect("fits");
        let a = first.request();
        let b = second.request();
        assert_eq!(&arena.shared()[a.request_offset..a.request_offset + 8], &[mine; 8]);
        assert_eq!(&arena.shared()[a.response_offset..a.response_offset + 8], &[0; 8]);
        assert_eq!(&arena.shared()[b.response_offset..b.response_offset + 8], &[0; 8]);
        assert!(arena.host_store(a.response_offset, &[!mine; 8]));
        assert!(arena.host_store(b.response_offset, &[!theirs; 8]));
        if round % 2 == 0 {
            assert_eq!(first.complete(&mut arena, ok), Ok(vec![!mine; 8]));
            assert_eq!(second.complete(&mut arena, ok), Ok(vec![!theirs; 8]));
        } else {
            assert_eq!(second.complete(&mut arena, ok), Ok(vec![!theirs; 8]));
            assert_eq!(first.complete(&mut arena, ok), Ok(vec![!mine; 8]));
        }
        assert_eq!(arena.available(), 64);
    }
}

#[test]
fn invoke_carries_the_request_to_the_host() {
    let mut arena = SharedArena::new(32);
    let r = invoke(&mut arena, 3, b"abc", 3, |sent: BoundaryRequest, mut shared: Vec<u8>| {
        assert_eq!(sent.op_code, 3);
        let request = shared[sent.request_offset..sent.request_offset + sent.request_len].to_vec();
        assert_eq!(request, b"abc".to_vec());
        for (i, b) in request.iter().rev().enumerate() {
            shared[sent.response_offset + i] = *b;
        }
        (BoundaryResponse { status: 0, response_len: 3 }, shared)
    });
    assert_eq!(r, Ok(b"cba".to_vec()));
    assert_eq!(arena.available(), 32);
    assert_eq!(&arena.shared()[..6], b"abccba");
}

#[test]
fn invoke_does_not_cross_when_the_request_does_not_fit() {
    let mut arena = SharedArena::new(4);
    let called = std::cell::Cell::new(false);
    let r = invoke(&mut arena, 3, b"abc", 3, |_sent: BoundaryRequest, shared: Vec<u8>| {
        called.set(true);
        (BoundaryResponse { status: 0, response_len: 3 }, shared)
    });
    assert_eq!(r, Err(BoundaryError::CapacityExceeded));
    assert!(!called.get());
}

#[test]
fn invoke_reports_what_the_host_rejects() {
    let mut arena = SharedArena::new(16);
    let r = invoke(&mut arena, 3, b"abc", 3, |_sent: BoundaryRequest, shared: Vec<u8>| {
        (BoundaryResponse { status: 2, response_len: 3 }, shared)
    });
    assert_eq!(r, Err(BoundaryError::HostRejected(2)));
    assert_eq!(arena.available(), 16);
}

#[test]
fn invoke_refuses_a_response_of_another_length() {
    let mut arena = SharedArena::new(16);
    let r = invoke(&mut arena, 3, b"abc", 3, |_sent: BoundaryRequest, shared: Vec<u8>| {
        (BoundaryResponse { status: 0, response_len: 2 }, shared)
    });
    assert_eq!(r, Err(BoundaryError::UntrustedSizeMismatch));
}

#[test]
fn invoke_refuses_memory_of_another_size() {
    let mut arena = SharedArena::new(8);
    let r = invoke(&mut arena, 3, b"abc", 3, |_sent: BoundaryRequest, _shared: Vec<u8>| {
        (BoundaryResponse { status: 0, response_len: 3 }, vec![7u8; 4])
    });
    assert_eq!(r, Ok(vec![0u8; 3]));
    assert_eq!(arena.capacity(), 8);
    assert_eq!(arena.shared(), &[0u8; 8]);
}

#[test]
fn boundary_errors_look_like_any_other_error() {
    let e = Error::from(BoundaryError::CapacityExceeded);
    assert_eq!(e.kind(), ErrorKind::InvalidInput);
    assert_eq!(e.raw_os_error(), None);
    assert_eq!(e.message(), "request exceeds the shared buffer");
    let e = Error::from(BoundaryError::UntrustedSizeMismatch);
    assert_eq!(e.kind(), ErrorKind::InvalidData);
    assert_eq!(e.raw_os_error(), None);
    let e = Error::from(BoundaryError::HostRejected(111));
    assert_eq!(e.kind(), ErrorKind::Other);
    assert_eq!(e.raw_os_error(), Some(111));
    assert_eq!(e, Error::from_raw_os_error(111));
}

#[test]
fn surface_keeps_values_and_turns_failures_into_errors() {
    assert_eq!(surface(Ok::<u8, BoundaryError>(7)), Ok(7));
    assert_eq!(
        surface(Err::<u8, BoundaryError>(BoundaryError::HostRejected(3))),
        Err(Error::from_raw_os_error(3))
    );
    assert_eq!(
        surface(Err::<u8, BoundaryError>(BoundaryError::CapacityExceeded)),
        Err(Error::new_const(ErrorKind::InvalidInput, "request exceeds the shared buffer"))
    );
    assert_eq!(
        surface(Err::<u8, BoundaryError>(BoundaryError::UntrustedSizeMismatch)),
        Err(Error::new_const(
            ErrorKind::InvalidData,
            "response length disagrees with the shared region"
        ))
    );
}
