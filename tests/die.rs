use dwarf::abbrev::{Abbrev, AbbrevAttribute, AbbrevHash};
use dwarf::constant::{
    DwForm, DW_AT_name, DW_AT_sibling, DW_FORM_addr, DW_FORM_block, DW_FORM_block1, DW_FORM_block2,
    DW_FORM_block4, DW_FORM_data1, DW_FORM_data2, DW_FORM_data4, DW_FORM_data8, DW_FORM_exprloc,
    DW_FORM_flag, DW_FORM_flag_present, DW_FORM_indirect, DW_FORM_ref1, DW_FORM_ref2, DW_FORM_ref4,
    DW_FORM_ref8, DW_FORM_ref_addr, DW_FORM_ref_sig8, DW_FORM_ref_udata, DW_FORM_sdata,
    DW_FORM_sec_offset, DW_FORM_string, DW_FORM_strp, DW_FORM_udata, DW_TAG_namespace,
};
use dwarf::die::{Attribute, AttributeData, Die};
use dwarf::unit::UnitCommon;
use dwarf::{Endian, LittleEndian, ReadError, WriteError};

fn entry<'data>(name: &'data str, children: bool) -> Die<'data> {
    Die {
        offset: 0,
        code: if children { 1 } else { 2 },
        tag: DW_TAG_namespace,
        children: children,
        attributes: vec![Attribute { at: DW_AT_name, data: AttributeData::String(name.as_bytes()) }],
    }
}

fn namespace_abbrevs() -> AbbrevHash {
    let mut abbrev_hash = AbbrevHash::new();
    abbrev_hash.insert(Abbrev {
        code: 1,
        tag: DW_TAG_namespace,
        children: true,
        attributes: vec![AbbrevAttribute { at: DW_AT_name, form: DW_FORM_string }],
    });
    abbrev_hash.insert(Abbrev {
        code: 2,
        tag: DW_TAG_namespace,
        children: false,
        attributes: vec![AbbrevAttribute { at: DW_AT_name, form: DW_FORM_string }],
    });
    abbrev_hash
}

fn tree_entries() -> Vec<Die<'static>> {
    vec![
        entry("0", true),
        entry("1", false),
        entry("2", true),
        Die::null(0),
        entry("4", true),
        entry("5", false),
        Die::null(0),
        entry("7", true),
        entry("8", true),
        entry("9", true),
        Die::null(0),
        Die::null(0),
        Die::null(0),
        entry("13", false),
        Die::null(0),
        entry("15", false),
    ]
}

#[test]
fn die_cursor() {
    let abbrev_hash = namespace_abbrevs();
    let mut write_val = tree_entries();
    let mut data = Vec::new();
    let mut unit = UnitCommon { endian: LittleEndian, ..Default::default() };
    for entry in &mut write_val {
        entry.offset = data.len();
        entry.write(&mut data, &unit, &abbrev_hash).unwrap();
    }
    unit.data = &data[..];

    let mut entries = unit.entries(0, &abbrev_hash);
    for i in 0..write_val.len() {
        match entries.next() {
            Ok(Some(read_val)) => assert_eq!(*read_val, write_val[i]),
            otherwise => panic!("{:?}", otherwise),
        }
    }
    assert!(entries.next().unwrap().is_none());

    let mut entries = unit.entries(0, &abbrev_hash);
    assert_eq!(*entries.next_sibling().unwrap().unwrap(), write_val[0]);
    assert_eq!(*entries.next().unwrap().unwrap(), write_val[1]);
    assert_eq!(*entries.next_sibling().unwrap().unwrap(), write_val[2]);
    assert_eq!(*entries.next_sibling().unwrap().unwrap(), write_val[4]);
    assert_eq!(*entries.next_sibling().unwrap().unwrap(), write_val[7]);
    assert_eq!(*entries.next_sibling().unwrap().unwrap(), write_val[13]);
    assert_eq!(*entries.next_sibling().unwrap().unwrap(), write_val[14]);
    assert_eq!(*entries.next_sibling().unwrap().unwrap(), write_val[15]);
    assert!(entries.next_sibling().unwrap().is_none());

    let mut tree = unit.entries(0, &abbrev_hash).tree();
    let mut tree = tree.iter();
    {
        let mut tree = tree.next().unwrap().unwrap();
        assert_eq!(*tree.entry(), write_val[0]);
        {
            let mut tree = tree.next().unwrap().unwrap();
            assert_eq!(*tree.entry(), write_val[1]);
            assert!(tree.next().unwrap().is_none());
        }
        {
            let mut tree = tree.next().unwrap().unwrap();
            assert_eq!(*tree.entry(), write_val[2]);
            assert!(tree.next().unwrap().is_none());
        }
        {
            let mut tree = tree.next().unwrap().unwrap();
            assert_eq!(*tree.entry(), write_val[4]);
            {
                let mut tree = tree.next().unwrap().unwrap();
                assert_eq!(*tree.entry(), write_val[5]);
                assert!(tree.next().unwrap().is_none());
            }
            assert!(tree.next().unwrap().is_none());
        }
        {
            let mut tree = tree.next().unwrap().unwrap();
            assert_eq!(*tree.entry(), write_val[7]);
            {
                let tree = tree.next().unwrap().unwrap();
                assert_eq!(*tree.entry(), write_val[8]);
                // Stop iterating here.
            }
        }
        {
            let tree = tree.next().unwrap().unwrap();
            assert_eq!(*tree.entry(), write_val[13]);
        }
        assert!(tree.next().unwrap().is_none());
    }
    {
        let mut tree = tree.next().unwrap().unwrap();
        assert_eq!(*tree.entry(), write_val[15]);
        assert!(tree.next().unwrap().is_none());
    }
    assert!(tree.next().unwrap().is_none());
}

#[test]
fn die_tree_siblings_from_top() {
    let abbrev_hash = namespace_abbrevs();
    let mut write_val = tree_entries();
    let mut data = Vec::new();
    let mut unit = UnitCommon { endian: LittleEndian, ..Default::default() };
    for entry in &mut write_val {
        entry.offset = data.len();
        entry.write(&mut data, &unit, &abbrev_hash).unwrap();
    }
    unit.data = &data[..];

    let mut entries = unit.entries(0, &abbrev_hash);
    assert_eq!(*entries.next_sibling().unwrap().unwrap(), write_val[0]);
    assert_eq!(*entries.next_sibling().unwrap().unwrap(), write_val[15]);
    assert!(entries.next_sibling().unwrap().is_none());

    let mut entries = unit.entries(0, &abbrev_hash);
    assert_eq!(*entries.next().unwrap().unwrap(), write_val[0]);
    assert_eq!(*entries.next().unwrap().unwrap(), write_val[1]);
    for &i in &[2usize, 4, 7, 13, 14] {
        assert_eq!(*entries.next_sibling().unwrap().unwrap(), write_val[i]);
    }
    assert!(write_val[14].is_null());
}

#[test]
fn die_sibling_attribute_skips_children() {
    let mut abbrev_hash = AbbrevHash::new();
    abbrev_hash.insert(Abbrev {
        code: 1,
        tag: DW_TAG_namespace,
        children: true,
        attributes: vec![AbbrevAttribute { at: DW_AT_sibling, form: DW_FORM_ref1 }],
    });
    abbrev_hash.insert(Abbrev {
        code: 2,
        tag: DW_TAG_namespace,
        children: false,
        attributes: vec![AbbrevAttribute { at: DW_AT_name, form: DW_FORM_string }],
    });
    // A parent whose sibling pointer leads past its children: code 3 would be
    // an error if the cursor read it.
    let data = [1u8, 7, 3, 0xff, 0xff, 0xff, 0, 2, b'x', 0];
    let mut unit = UnitCommon { endian: LittleEndian, ..Default::default() };
    unit.data = &data[..];
    let mut entries = unit.entries(0, &abbrev_hash);
    assert_eq!(entries.next().unwrap().unwrap().code, 1);
    assert_eq!(entries.offset(), 2);
    let sibling = entries.next_sibling().unwrap().unwrap();
    assert_eq!(sibling.code, 2);
    assert_eq!(sibling.offset, 7);
    assert_eq!(entries.offset(), data.len());
}

#[test]
fn die_missing_abbrev_is_invalid() {
    let abbrev_hash = namespace_abbrevs();
    let data = [9u8, 0];
    let mut unit = UnitCommon { endian: LittleEndian, ..Default::default() };
    unit.data = &data[..];
    let mut entries = unit.entries(0, &abbrev_hash);
    match entries.next() {
        Err(ReadError::Invalid) => {}
        otherwise => panic!("{:?}", otherwise),
    }
}

#[test]
fn die() {
    let mut abbrev_hash = AbbrevHash::new();
    let code = 1;
    abbrev_hash.insert(Abbrev {
        code: code,
        tag: DW_TAG_namespace,
        children: true,
        attributes: vec![AbbrevAttribute { at: DW_AT_name, form: DW_FORM_string }],
    });
    let write_val = Die {
        offset: 0,
        code: code,
        tag: DW_TAG_namespace,
        children: true,
        attributes: vec![Attribute { at: DW_AT_name, data: AttributeData::String(b"test") }],
    };

    let mut data = Vec::new();
    let mut unit = UnitCommon { endian: LittleEndian, ..Default::default() };
    write_val.write(&mut data, &unit, &abbrev_hash).unwrap();
    unit.data = &data[..];

    let mut r = unit.data();
    let mut read_val = Die::null(0);
    read_val.read(&mut r, write_val.offset, &unit, &abbrev_hash).unwrap();

    assert_eq!(unit.data(), [1, b't', b'e', b's', b't', 0]);
    assert_eq!(r.len(), 0);
    assert_eq!(read_val, write_val);
}

#[test]
fn die_write_mismatch_is_invalid() {
    let abbrev_hash = namespace_abbrevs();
    let unit: UnitCommon<LittleEndian> = UnitCommon { endian: LittleEndian, ..Default::default() };
    let mut wrong = entry("x", true);
    wrong.children = false;
    let mut data = Vec::new();
    match wrong.write(&mut data, &unit, &abbrev_hash) {
        Err(WriteError::Invalid) => {}
        otherwise => panic!("{:?}", otherwise),
    }
    let mut missing = entry("x", true);
    missing.code = 9;
    match missing.write(&mut data, &unit, &abbrev_hash) {
        Err(WriteError::Invalid) => {}
        otherwise => panic!("{:?}", otherwise),
    }
    assert!(data.is_empty());
    let named = entry("x", false);
    assert_eq!(named.attr(DW_AT_name), Some(&AttributeData::String(b"x")));
    assert_eq!(named.attr(DW_AT_sibling), None);
}

#[test]
fn attribute() {
    let abbrev = AbbrevAttribute { at: DW_AT_sibling, form: DW_FORM_ref4 };
    let write_val = Attribute { at: DW_AT_sibling, data: AttributeData::Ref(0x01234567) };

    let mut data = Vec::new();
    let mut unit = UnitCommon { endian: LittleEndian, ..Default::default() };
    write_val.write(&mut data, &unit, &abbrev).unwrap();
    unit.data = &data[..];

    let mut r = unit.data();
    let read_val = Attribute::read(&mut r, &unit, &abbrev).unwrap();

    assert_eq!(unit.data(), [0x67, 0x45, 0x23, 0x01]);
    assert_eq!(r.len(), 0);
    assert_eq!(read_val, write_val);
}

#[test]
fn attribute_ref4_indirect() {
    let unit: UnitCommon<LittleEndian> = UnitCommon { endian: LittleEndian, ..Default::default() };
    let value = AttributeData::Ref(0x01234567);
    let mut direct = Vec::new();
    value.write(&mut direct, &unit, DW_FORM_ref4, false).unwrap();
    assert_eq!(direct, vec![0x67, 0x45, 0x23, 0x01]);
    let mut indirect = Vec::new();
    value.write(&mut indirect, &unit, DW_FORM_ref4, true).unwrap();
    assert_eq!(indirect, vec![0x13, 0x67, 0x45, 0x23, 0x01]);
    let mut r = &indirect[..];
    assert_eq!(AttributeData::read(&mut r, &unit, DW_FORM_indirect).unwrap(), value);
}

#[test]
fn attribute_errors() {
    let unit: UnitCommon<LittleEndian> = UnitCommon { endian: LittleEndian, ..Default::default() };
    let mut buf = Vec::new();
    match AttributeData::Data1(1).write(&mut buf, &unit, DW_FORM_data2, false) {
        Err(WriteError::Invalid) => {}
        otherwise => panic!("{:?}", otherwise),
    }
    match AttributeData::Data4(1).write(&mut buf, &unit, DW_FORM_data2, true) {
        Err(WriteError::Invalid) => {}
        otherwise => panic!("{:?}", otherwise),
    }
    match AttributeData::Null.write(&mut buf, &unit, DW_FORM_data1, false) {
        Err(WriteError::Invalid) => {}
        otherwise => panic!("{:?}", otherwise),
    }
    let mut wide = UnitCommon { endian: LittleEndian, ..Default::default() };
    wide.address_size = 3;
    match AttributeData::Address(1).write(&mut buf, &wide, DW_FORM_addr, false) {
        Err(WriteError::Unsupported) => {}
        otherwise => panic!("{:?}", otherwise),
    }
    match AttributeData::Flag(false).write(&mut buf, &unit, DW_FORM_flag_present, true) {
        Err(WriteError::Invalid) => {}
        otherwise => panic!("{:?}", otherwise),
    }
    let long = [0u8; 300];
    match AttributeData::Block(&long).write(&mut buf, &unit, DW_FORM_block1, false) {
        Err(WriteError::Invalid) => {}
        otherwise => panic!("{:?}", otherwise),
    }
    assert!(buf.is_empty());
    let mut r = &[0x01u8][..];
    match AttributeData::read(&mut r, &unit, 0x7f) {
        Err(ReadError::Unsupported) => {}
        otherwise => panic!("{:?}", otherwise),
    }
    let mut r = &[0x05u8, 0x01][..];
    match AttributeData::read(&mut r, &unit, DW_FORM_block1) {
        Err(ReadError::Invalid) => {}
        otherwise => panic!("{:?}", otherwise),
    }
    let mut r = &[b'a', b'b'][..];
    match AttributeData::read(&mut r, &unit, DW_FORM_string) {
        Err(ReadError::Invalid) => {}
        otherwise => panic!("{:?}", otherwise),
    }
    let mut r = &[0x01u8, 0x02][..];
    match AttributeData::read(&mut r, &unit, DW_FORM_data4) {
        Err(ReadError::Eof) => {}
        otherwise => panic!("{:?}", otherwise),
    }
    let mut bad = UnitCommon { endian: LittleEndian, ..Default::default() };
    bad.address_size = 3;
    let mut r = &[0x01u8, 0x02, 0x03][..];
    match AttributeData::read(&mut r, &bad, DW_FORM_addr) {
        Err(ReadError::Unsupported) => {}
        otherwise => panic!("{:?}", otherwise),
    }
}

#[test]
fn attribute_data() {
    let mut unit = UnitCommon { endian: LittleEndian, ..Default::default() };

    unit.address_size = 4;
    unit.offset_size = 4;
    for &(ref write_val, form, expect) in &[
        (AttributeData::Address(0x12345678), DW_FORM_addr, &[0x78, 0x56, 0x34, 0x12][..]),
        (AttributeData::Block(&[0x11, 0x22, 0x33]), DW_FORM_block1, &[0x3, 0x11, 0x22, 0x33][..]),
        (AttributeData::Block(&[0x11, 0x22, 0x33]), DW_FORM_block2, &[0x3, 0x00, 0x11, 0x22, 0x33][..]),
        (AttributeData::Block(&[0x11, 0x22, 0x33]), DW_FORM_block4, &[0x3, 0x00, 0x00, 0x00, 0x11, 0x22, 0x33][..]),
        (AttributeData::Block(&[0x11, 0x22, 0x33]), DW_FORM_block, &[0x3, 0x11, 0x22, 0x33][..]),
        (AttributeData::Data1(0x01), DW_FORM_data1, &[0x01][..]),
        (AttributeData::Data2(0x0123), DW_FORM_data2, &[0x23, 0x01][..]),
        (AttributeData::Data4(0x01234567), DW_FORM_data4, &[0x67, 0x45, 0x23, 0x01][..]),
        (AttributeData::Data8(0x0123456789abcdef), DW_FORM_data8, &[0xef, 0xcd, 0xab, 0x89, 0x67, 0x45, 0x23, 0x01][..]),
        (AttributeData::UData(0x01234567), DW_FORM_udata, &[231, 138, 141, 9][..]),
        (AttributeData::SData(0x01234567), DW_FORM_sdata, &[231, 138, 141, 9][..]),
        (AttributeData::SData(-0x01234567), DW_FORM_sdata, &[153, 245, 242, 118][..]),
        (AttributeData::Flag(false), DW_FORM_flag, &[0][..]),
        (AttributeData::Flag(true), DW_FORM_flag, &[1][..]),
        (AttributeData::Flag(true), DW_FORM_flag_present, &[][..]),
        (AttributeData::String(b"test"), DW_FORM_string, &[b't', b'e', b's', b't', 0][..]),
        (AttributeData::StringOffset(0x01234567), DW_FORM_strp, &[0x67, 0x45, 0x23, 0x01][..]),
        (AttributeData::Ref(0x01), DW_FORM_ref1, &[0x01][..]),
        (AttributeData::Ref(0x0123), DW_FORM_ref2, &[0x23, 0x01][..]),
        (AttributeData::Ref(0x01234567), DW_FORM_ref4, &[0x67, 0x45, 0x23, 0x01][..]),
        (AttributeData::Ref(0x0123456789abcdef), DW_FORM_ref8, &[0xef, 0xcd, 0xab, 0x89, 0x67, 0x45, 0x23, 0x01][..]),
        (AttributeData::Ref(0x01234567), DW_FORM_ref_udata, &[231, 138, 141, 9][..]),
        (AttributeData::RefAddress(0x12345678), DW_FORM_ref_addr, &[0x78, 0x56, 0x34, 0x12][..]),
        (AttributeData::RefSig(0x0123456789abcdef), DW_FORM_ref_sig8, &[0xef, 0xcd, 0xab, 0x89, 0x67, 0x45, 0x23, 0x01][..]),
        (AttributeData::SecOffset(0x12345678), DW_FORM_sec_offset, &[0x78, 0x56, 0x34, 0x12][..]),
        (AttributeData::ExprLoc(&[0x11, 0x22, 0x33]), DW_FORM_exprloc, &[0x3, 0x11, 0x22, 0x33][..]),
    ] {
        attribute_data_inner(&mut unit, write_val, form, expect);
    }

    unit.address_size = 8;
    unit.offset_size = 4;
    for &(ref write_val, form, expect) in &[
        (AttributeData::Address(0x0123456789), DW_FORM_addr, &[0x89, 0x67, 0x45, 0x23, 0x01, 0x00, 0x00, 0x00][..]),
    ] {
        attribute_data_inner(&mut unit, write_val, form, expect);
    }

    unit.address_size = 4;
    unit.offset_size = 8;
    for &(ref write_val, form, expect) in &[
        (AttributeData::StringOffset(0x0123456789), DW_FORM_strp, &[0x89, 0x67, 0x45, 0x23, 0x01, 0x00, 0x00, 0x00][..]),
        (AttributeData::RefAddress(0x0123456789), DW_FORM_ref_addr, &[0x89, 0x67, 0x45, 0x23, 0x01, 0x00, 0x00, 0x00][..]),
        (AttributeData::SecOffset(0x0123456789), DW_FORM_sec_offset, &[0x89, 0x67, 0x45, 0x23, 0x01, 0x00, 0x00, 0x00][..]),
    ] {
        attribute_data_inner(&mut unit, write_val, form, expect);
    }

    unit.version = 2;
    unit.address_size = 8;
    unit.offset_size = 4;
    for &(ref write_val, form, expect) in &[
        (AttributeData::RefAddress(0x0123456789), DW_FORM_ref_addr, &[0x89, 0x67, 0x45, 0x23, 0x01, 0x00, 0x00, 0x00][..]),
    ] {
        attribute_data_inner(&mut unit, write_val, form, expect);
    }
}

fn attribute_data_inner<'data, 'b, E: Endian>(
    unit: &UnitCommon<'data, E>,
    write_val: &AttributeData<'b>,
    form: DwForm,
    expect: &[u8],
) {
    for &indirect in &[false, true] {
        let mut data = Vec::new();
        write_val.write(&mut data, unit, form, indirect).unwrap();
        let buf = &data[..];

        let read_form = if indirect { DW_FORM_indirect } else { form };
        let mut r = buf;
        let read_val = AttributeData::read(&mut r, unit, read_form).unwrap();

        if indirect {
            assert_eq!(buf[0] as u16, form);
            assert_eq!(&buf[1..], expect);
        } else {
            assert_eq!(&buf[..], expect);
        }
        assert_eq!(r.len(), 0);
        assert_eq!(read_val, *write_val);
    }
}
