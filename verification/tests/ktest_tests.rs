use rauk::ktest::{get_vcell_ktestobjects, magic_number, parse_ktest_binary, KTestError};

#[test]
fn invalid_magic_number() {
    let magic = [0, 0, 0, 0, 0];
    let res = magic_number(&magic);
    assert_eq!(res, false);
}

#[test]
fn valid_magic_numbers() {
    let ktest = b"KTEST";
    let bout = b"BOUT\n";
    assert_eq!(magic_number(ktest), true);
    assert_eq!(magic_number(bout), true);
}

fn be(v: u32) -> [u8; 4] {
    v.to_be_bytes()
}

#[test]
fn parses_a_small_vector() {
    let mut data: Vec<u8> = Vec::new();
    data.extend_from_slice(b"KTEST");
    data.extend_from_slice(&be(3)); // version
    data.extend_from_slice(&be(1)); // one argument
    data.extend_from_slice(&be(2));
    data.extend_from_slice(b"ab");
    data.extend_from_slice(&be(7)); // sym_argvs
    data.extend_from_slice(&be(9)); // sym_argv_len
    data.extend_from_slice(&be(1)); // object count field
    data.extend_from_slice(&be(5));
    data.extend_from_slice(b"vcell");
    data.extend_from_slice(&be(4));
    data.extend_from_slice(&[1, 0, 0, 0]);

    let kt = parse_ktest_binary(&data).unwrap();
    assert_eq!(kt.version, 3);
    assert_eq!(kt.args, vec!["ab".to_string()]);
    assert_eq!(kt.sym_argvs, 7);
    assert_eq!(kt.sym_argv_len, 9);
    assert_eq!(kt.num_objects, 1);
    assert_eq!(kt.objects[0].name, "vcell");
    assert_eq!(kt.objects[0].num_bytes, 4);
    assert_eq!(kt.objects[0].bytes, vec![1, 0, 0, 0]);

    let vcells = get_vcell_ktestobjects(&kt);
    assert_eq!(vcells.len(), 1);
    assert_eq!(vcells[0].name, "vcell");
}

#[test]
fn truncated_vector_is_rejected() {
    let data = b"KTEST\x00\x00";
    assert_eq!(parse_ktest_binary(data), Err(KTestError::Truncated));
}

#[test]
fn old_version_has_no_sym_args() {
    let mut data: Vec<u8> = Vec::new();
    data.extend_from_slice(b"BOUT\n");
    data.extend_from_slice(&be(2)); // version 2: no symbolic arguments
    data.extend_from_slice(&be(0)); // no arguments
    data.extend_from_slice(&be(0)); // object count field
    let kt = parse_ktest_binary(&data).unwrap();
    assert_eq!(kt.version, 2);
    assert_eq!(kt.sym_argvs, 0);
    assert_eq!(kt.sym_argv_len, 0);
    assert_eq!(kt.num_objects, 0);
}

#[test]
fn wrong_magic_is_rejected_by_the_parser() {
    let data = b"NOPES\x00\x00\x00\x03";
    assert_eq!(parse_ktest_binary(data), Err(KTestError::BadMagic));
}

#[test]
fn non_utf8_names_are_rejected() {
    let mut data: Vec<u8> = Vec::new();
    data.extend_from_slice(b"KTEST");
    data.extend_from_slice(&be(2)); // version
    data.extend_from_slice(&be(1)); // one argument
    data.extend_from_slice(&be(2));
    data.extend_from_slice(&[0xff, 0xfe]); // not UTF-8
    assert_eq!(parse_ktest_binary(&data), Err(KTestError::InvalidString));
}
