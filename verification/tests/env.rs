use sgx_tstd::boundary::BoundaryError;
use sgx_tstd::c_str::CString;
use sgx_tstd::env::{
    join_paths, remove_var, set_var, split_paths, var, var_os, vars, vars_os, JoinPathsError,
    VarError,
};
use sgx_tstd::io::{Error, ErrorKind};

fn list(paths: &[&[u8]]) -> Vec<Vec<u8>> {
    paths.iter().map(|p| p.to_vec()).collect()
}

#[test]
fn split_paths_splits_at_colons() {
    assert_eq!(split_paths(b"/bin:/usr/bin").collect(), list(&[b"/bin", b"/usr/bin"]));
    assert_eq!(split_paths(b"/bin").collect(), list(&[b"/bin"]));
    assert_eq!(split_paths(b"").collect(), list(&[b""]));
    assert_eq!(split_paths(b":").collect(), list(&[b"", b""]));
    assert_eq!(split_paths(b"a::b:").collect(), list(&[b"a", b"", b"b", b""]));
    assert_eq!(split_paths(b":/bin").collect(), list(&[b"", b"/bin"]));
    assert_eq!(split_paths(b"C;D").collect(), list(&[b"C;D"]));
}

#[test]
fn split_paths_hands_out_one_entry_at_a_time() {
    let mut paths = split_paths(b"/bin:/usr/bin:");
    assert_eq!(paths.size_hint(), (1, Some(15)));
    assert_eq!(paths.next(), Some(b"/bin".to_vec()));
    assert_eq!(paths.next(), Some(b"/usr/bin".to_vec()));
    assert_eq!(paths.size_hint(), (1, Some(1)));
    assert_eq!(paths.next(), Some(Vec::new()));
    assert_eq!(paths.size_hint(), (0, Some(0)));
    assert_eq!(paths.next(), None);
    assert_eq!(paths.next(), None);
}

#[test]
fn join_paths_puts_colons_between_entries() {
    assert_eq!(join_paths(&list(&[b"/bin", b"/usr/bin"])), Ok(b"/bin:/usr/bin".to_vec()));
    assert_eq!(join_paths(&list(&[b"/bin"])), Ok(b"/bin".to_vec()));
    assert_eq!(join_paths(&list(&[])), Ok(Vec::new()));
    assert_eq!(join_paths(&list(&[b"", b""])), Ok(b":".to_vec()));
    assert_eq!(join_paths(&list(&[b"a", b"", b"b", b""])), Ok(b"a::b:".to_vec()));
}

#[test]
fn join_paths_refuses_an_entry_with_a_colon() {
    assert_eq!(join_paths(&list(&[b"/bin", b"/usr:bin"])), Err(JoinPathsError {}));
    assert_eq!(join_paths(&list(&[b":"])), Err(JoinPathsError {}));
    assert_eq!(join_paths(&list(&[b"a:", b"b"])), Err(JoinPathsError {}));
    assert_eq!(
        JoinPathsError {}.description(),
        "path segment contains separator `:`"
    );
}

#[test]
fn joining_what_was_split_gives_the_list_back() {
    let samples: [&[u8]; 8] =
        [b"", b":", b"::", b"/bin", b"/bin:/usr/bin", b":a", b"a:", b"a::b:c:"];
    for s in samples {
        assert_eq!(join_paths(&split_paths(s).collect()), Ok(s.to_vec()));
    }
}

#[test]
fn splitting_what_was_joined_gives_the_entries_back() {
    let samples: [Vec<Vec<u8>>; 5] = [
        list(&[b"a"]),
        list(&[b""]),
        list(&[b"a", b"b"]),
        list(&[b"", b"", b""]),
        list(&[b"/usr/local/bin", b"", b"/bin"]),
    ];
    for paths in samples {
        let joined = join_paths(&paths).expect("no colon in any entry");
        assert_eq!(split_paths(&joined).collect(), paths);
    }
}

#[test]
fn joining_no_entries_splits_into_one_empty_entry() {
    let joined = join_paths(&Vec::new()).expect("no entries");
    assert_eq!(split_paths(&joined).collect(), list(&[b""]));
}

#[test]
fn var_os_asks_the_host_once() {
    let asked = std::cell::RefCell::new(Vec::new());
    let r = var_os(b"HOME", |name: &CString| {
        asked.borrow_mut().push(name.as_bytes_with_nul().to_vec());
        Ok(Some(b"/root".to_vec()))
    });
    assert_eq!(r, Ok(Some(b"/root".to_vec())));
    assert_eq!(*asked.borrow(), vec![b"HOME\0".to_vec()]);
}

#[test]
fn var_os_reports_a_variable_that_is_not_set() {
    let r = var_os(b"NOPE", |_name: &CString| Ok(None));
    assert_eq!(r, Ok(None));
}

#[test]
fn var_os_hands_on_the_error_of_the_crossing() {
    let r = var_os(b"HOME", |_name: &CString| Err(BoundaryError::HostRejected(5)));
    assert_eq!(r, Err(Error::from_raw_os_error(5)));
    let r = var_os(b"HOME", |_name: &CString| Err(BoundaryError::CapacityExceeded));
    assert_eq!(r.unwrap_err().kind(), ErrorKind::InvalidInput);
    let r = var_os(b"HOME", |_name: &CString| Err(BoundaryError::UntrustedSizeMismatch));
    assert_eq!(r.unwrap_err().kind(), ErrorKind::InvalidData);
}

#[test]
fn var_os_refuses_a_name_with_a_zero_byte_without_asking() {
    let r = var_os(b"HO\0ME", |_name: &CString| panic!("the host must not be asked"));
    let e = r.unwrap_err();
    assert_eq!(e.kind(), ErrorKind::InvalidInput);
    assert_eq!(e.message(), "data provided contains a nul byte");
}

#[test]
fn var_os_values_need_not_be_text() {
    let r = var_os(b"BLOB", |_name: &CString| Ok(Some(vec![0xff, 0x00, 0xfe])));
    assert_eq!(r, Ok(Some(vec![0xff, 0x00, 0xfe])));
}

#[test]
fn var_decodes_text() {
    assert_eq!(var(Some(b"/root".to_vec())), Ok(String::from("/root")));
    assert_eq!(var(Some(Vec::new())), Ok(String::new()));
    assert_eq!(var(Some("\u{e9}t\u{e9}".as_bytes().to_vec())), Ok(String::from("\u{e9}t\u{e9}")));
}

#[test]
fn var_reports_what_is_missing_or_not_text() {
    assert_eq!(var(None), Err(VarError::NotPresent));
    assert_eq!(var(Some(vec![b'a', 0xff, b'b'])), Err(VarError::NotUnicode(vec![b'a', 0xff, b'b'])));
    assert_eq!(VarError::NotPresent.description(), "environment variable not found");
    assert_eq!(
        VarError::NotUnicode(vec![0xff]).description(),
        "environment variable was not valid unicode"
    );
}

#[test]
fn set_var_hands_name_and_value_to_the_host() {
    let seen = std::cell::RefCell::new(Vec::new());
    let r = set_var(b"KEY", b"a=b", |name: &CString, value: &CString| {
        seen.borrow_mut().push((name.as_bytes().to_vec(), value.as_bytes().to_vec()));
        Ok(())
    });
    assert_eq!(r, Ok(()));
    assert_eq!(*seen.borrow(), vec![(b"KEY".to_vec(), b"a=b".to_vec())]);
    let r = set_var(b"KEY", b"", |_name: &CString, _value: &CString| {
        Err(BoundaryError::HostRejected(12))
    });
    assert_eq!(r, Err(Error::from_raw_os_error(12)));
}

#[test]
fn set_var_refuses_bad_names_and_values_without_asking() {
    let never = |_name: &CString, _value: &CString| -> Result<(), BoundaryError> {
        panic!("the host must not be asked")
    };
    let e = set_var(b"", b"v", never).unwrap_err();
    assert_eq!(e, Error::new_const(ErrorKind::InvalidInput, "invalid environment variable name"));
    let e = set_var(b"A=B", b"v", never).unwrap_err();
    assert_eq!(e, Error::new_const(ErrorKind::InvalidInput, "invalid environment variable name"));
    let e = set_var(b"=", b"v", never).unwrap_err();
    assert_eq!(e.message(), "invalid environment variable name");
    let e = set_var(b"A\0B", b"v", never).unwrap_err();
    assert_eq!(e, Error::new_const(ErrorKind::InvalidInput, "data provided contains a nul byte"));
    let e = set_var(b"A=\0", b"v", never).unwrap_err();
    assert_eq!(e.message(), "data provided contains a nul byte");
    let e = set_var(b"KEY", b"v\0", never).unwrap_err();
    assert_eq!(e, Error::new_const(ErrorKind::InvalidInput, "data provided contains a nul byte"));
}

#[test]
fn remove_var_hands_the_name_to_the_host() {
    let seen = std::cell::RefCell::new(Vec::new());
    let r = remove_var(b"KEY", |name: &CString| {
        seen.borrow_mut().push(name.as_bytes().to_vec());
        Ok(())
    });
    assert_eq!(r, Ok(()));
    assert_eq!(*seen.borrow(), vec![b"KEY".to_vec()]);
    let r = remove_var(b"KEY", |_name: &CString| Err(BoundaryError::HostRejected(-1)));
    assert_eq!(r, Err(Error::from_raw_os_error(-1)));
}

#[test]
fn remove_var_refuses_bad_names_without_asking() {
    let never =
        |_name: &CString| -> Result<(), BoundaryError> { panic!("the host must not be asked") };
    assert_eq!(remove_var(b"", never).unwrap_err().message(), "invalid environment variable name");
    assert_eq!(
        remove_var(b"A=B", never).unwrap_err().message(),
        "invalid environment variable name"
    );
    assert_eq!(
        remove_var(b"A\0", never).unwrap_err().message(),
        "data provided contains a nul byte"
    );
}

#[test]
fn vars_os_parses_the_entries_in_order() {
    let environ = list(&[b"HOME=/root", b"PATH=/bin:/usr/bin", b"EMPTY=", b"A=b=c"]);
    let mut snapshot = vars_os(&environ);
    assert_eq!(snapshot.size_hint(), (4, Some(4)));
    assert_eq!(snapshot.next(), Some((b"HOME".to_vec(), b"/root".to_vec())));
    assert_eq!(snapshot.next(), Some((b"PATH".to_vec(), b"/bin:/usr/bin".to_vec())));
    assert_eq!(snapshot.next(), Some((b"EMPTY".to_vec(), Vec::new())));
    assert_eq!(snapshot.size_hint(), (1, Some(1)));
    assert_eq!(snapshot.next(), Some((b"A".to_vec(), b"b=c".to_vec())));
    assert_eq!(snapshot.next(), None);
    assert_eq!(snapshot.size_hint(), (0, Some(0)));
}

#[test]
fn vars_os_skips_malformed_entries() {
    let environ = list(&[b"", b"NOVALUE", b"=", b"=X=1", b"==", b"OK=1", b"\xff=\xfe"]);
    let mut snapshot = vars_os(&environ);
    assert_eq!(snapshot.next(), Some((b"=X".to_vec(), b"1".to_vec())));
    assert_eq!(snapshot.next(), Some((b"=".to_vec(), Vec::new())));
    assert_eq!(snapshot.next(), Some((b"OK".to_vec(), b"1".to_vec())));
    assert_eq!(snapshot.next(), Some((vec![0xff], vec![0xfe])));
    assert_eq!(snapshot.next(), None);
}

#[test]
fn a_snapshot_does_not_follow_later_changes() {
    let mut environ = list(&[b"A=1", b"B=2"]);
    let mut snapshot = vars_os(&environ);
    environ[0] = b"A=changed".to_vec();
    environ.push(b"C=3".to_vec());
    assert_eq!(snapshot.next(), Some((b"A".to_vec(), b"1".to_vec())));
    assert_eq!(snapshot.next(), Some((b"B".to_vec(), b"2".to_vec())));
    assert_eq!(snapshot.next(), None);
}

#[test]
fn vars_hands_out_text() {
    let environ = list(&[b"HOME=/root", b"broken", "NAME=J\u{fc}rgen".as_bytes()]);
    let mut snapshot = vars(&environ);
    assert_eq!(snapshot.size_hint(), (2, Some(2)));
    assert!(snapshot.next_is_unicode());
    assert_eq!(snapshot.next(), Some((String::from("HOME"), String::from("/root"))));
    assert!(snapshot.next_is_unicode());
    assert_eq!(snapshot.next(), Some((String::from("NAME"), String::from("J\u{fc}rgen"))));
    assert!(snapshot.next_is_unicode());
    assert_eq!(snapshot.next(), None);
}

#[test]
fn vars_tells_when_the_next_variable_is_not_text() {
    let snapshot = vars(&list(&[b"BAD=\xff", b"OK=1"]));
    assert!(!snapshot.next_is_unicode());
    let snapshot = vars(&list(&[b"\xffBAD=1"]));
    assert!(!snapshot.next_is_unicode());
    let snapshot = vars(&list(&[b"OK=1", b"BAD=\xff"]));
    assert!(snapshot.next_is_unicode());
}
