use dwarf::abbrev::{Abbrev, AbbrevAttribute, AbbrevHash, AbbrevVec};
use dwarf::constant::{DW_AT_name, DW_AT_sibling, DW_FORM_ref4, DW_FORM_strp, DW_TAG_namespace};
use dwarf::ReadError;

#[test]
fn abbrev_container() {
    let write_val = AbbrevVec::new(vec![Abbrev {
        code: 1,
        tag: DW_TAG_namespace,
        children: true,
        attributes: vec![AbbrevAttribute { at: DW_AT_name, form: DW_FORM_strp }],
    }]);

    let mut buf = Vec::new();
    write_val.write(&mut buf);

    let mut r = &buf[..];
    let read_val = AbbrevHash::read(&mut r).unwrap();

    assert_eq!(&buf[..], [1, 57, 1, 3, 14, 0, 0, 0]);
    assert_eq!(r.len(), 0);
    assert_eq!(read_val.len(), write_val.len());
    for abbrev in write_val.0.iter() {
        assert_eq!(Some(abbrev), read_val.get(abbrev.code));
    }
}

#[test]
fn abbrev() {
    let write_val = Abbrev {
        code: 1,
        tag: DW_TAG_namespace,
        children: true,
        attributes: vec![AbbrevAttribute { at: DW_AT_name, form: DW_FORM_strp }],
    };

    let mut buf = Vec::new();
    write_val.write(&mut buf);

    let mut r = &buf[..];
    let read_val = Abbrev::read(&mut r).unwrap();

    assert_eq!(&buf[..], [1, 57, 1, 3, 14, 0, 0]);
    assert_eq!(r.len(), 0);
    assert_eq!(read_val, Some(write_val));
}

#[test]
fn abbrev_attribute() {
    let write_val = AbbrevAttribute { at: DW_AT_sibling, form: DW_FORM_ref4 };

    let mut buf = Vec::new();
    write_val.write(&mut buf);

    let mut r = &buf[..];
    let read_val = AbbrevAttribute::read(&mut r).unwrap();

    assert_eq!(&buf[..], [1, 19]);
    assert_eq!(r.len(), 0);
    assert_eq!(read_val, Some(write_val));
}

#[test]
fn abbrev_namespace_encoding() {
    let abbrev = Abbrev {
        code: 1,
        tag: 0x39,
        children: true,
        attributes: vec![AbbrevAttribute { at: 0x03, form: 0x0e }],
    };
    let mut buf = Vec::new();
    abbrev.write(&mut buf);
    assert_eq!(buf, vec![0x01, 0x39, 0x01, 0x03, 0x0e, 0x00, 0x00]);
    Abbrev::write_null(&mut buf);
    assert_eq!(buf, vec![0x01, 0x39, 0x01, 0x03, 0x0e, 0x00, 0x00, 0x00]);
}

#[test]
fn abbrev_table_round_trip_by_code() {
    let table = AbbrevVec::new(vec![
        Abbrev { code: 7, tag: 0x11, children: true, attributes: vec![AbbrevAttribute { at: 0x03, form: 0x08 }] },
        Abbrev { code: 300, tag: 0x2e, children: false, attributes: vec![] },
        Abbrev {
            code: 2,
            tag: 0x34,
            children: false,
            attributes: vec![AbbrevAttribute { at: 0x03, form: 0x0e }, AbbrevAttribute { at: 0x49, form: 0x13 }],
        },
    ]);
    let mut buf = Vec::new();
    table.write(&mut buf);
    let mut r = &buf[..];
    let read_val = AbbrevHash::read(&mut r).unwrap();
    assert_eq!(r.len(), 0);
    assert_eq!(read_val.len(), 3);
    assert!(!read_val.is_empty());
    for abbrev in table.0.iter() {
        assert_eq!(read_val.get(abbrev.code), Some(abbrev));
    }
    assert_eq!(read_val.get(1), None);
}

#[test]
fn abbrev_empty_table() {
    let mut r = &[0u8][..];
    let table = AbbrevHash::read(&mut r).unwrap();
    assert!(table.is_empty());
    assert_eq!(r.len(), 0);
}

#[test]
fn abbrev_duplicate_code_is_invalid() {
    let mut r = &[1u8, 0x11, 0, 0, 0, 1, 0x2e, 0, 0, 0, 0][..];
    match AbbrevHash::read(&mut r) {
        Err(ReadError::Invalid) => {}
        otherwise => panic!("{:?}", otherwise),
    }
}

#[test]
fn abbrev_bad_children_flag_is_invalid() {
    let mut r = &[1u8, 0x11, 2, 0, 0][..];
    match Abbrev::read(&mut r) {
        Err(ReadError::Invalid) => {}
        otherwise => panic!("{:?}", otherwise),
    }
}

#[test]
fn abbrev_truncated_is_eof() {
    let mut r = &[1u8, 0x11][..];
    match Abbrev::read(&mut r) {
        Err(ReadError::Eof) => {}
        otherwise => panic!("{:?}", otherwise),
    }
}

#[test]
fn abbrev_hash_insert_replaces() {
    let mut table = AbbrevHash::new();
    assert!(table.is_empty());
    let first = Abbrev { code: 5, tag: 0x11, children: false, attributes: vec![] };
    assert_eq!(table.insert(first), None);
    let second = Abbrev { code: 5, tag: 0x2e, children: true, attributes: vec![] };
    let old = table.insert(second).unwrap();
    assert_eq!(old.tag, 0x11);
    assert_eq!(table.get(5).unwrap().tag, 0x2e);
    assert_eq!(table.len(), 1);
}

#[test]
fn abbrev_attribute_null() {
    let null = AbbrevAttribute::null();
    assert!(null.is_null());
    let mut buf = Vec::new();
    AbbrevAttribute::write_null(&mut buf);
    assert_eq!(buf, vec![0, 0]);
    let mut r = &buf[..];
    assert_eq!(AbbrevAttribute::read(&mut r).unwrap(), None);
}
