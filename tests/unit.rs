use dwarf::unit::{CompilationUnit, TypeUnit, UnitCommon};
use dwarf::{LittleEndian, ReadError, WriteError};

fn cu<'a>(offset_size: u8, data: &'a [u8]) -> CompilationUnit<'a, LittleEndian> {
    CompilationUnit {
        common: UnitCommon {
            offset: 0,
            endian: LittleEndian,
            version: 4,
            address_size: 4,
            offset_size: offset_size,
            abbrev_offset: 0x12,
            data: From::from(data),
        },
    }
}

fn tu<'a>(offset_size: u8, data: &'a [u8]) -> TypeUnit<'a, LittleEndian> {
    TypeUnit {
        common: UnitCommon {
            offset: 0,
            endian: LittleEndian,
            version: 4,
            address_size: 4,
            offset_size: offset_size,
            abbrev_offset: 0x12,
            data: From::from(data),
        },
        type_signature: 0x0123456789abcdef,
        type_offset: 0x02,
    }
}

const CU_32: [u8; 15] = [
    0x0b, 0x00, 0x00, 0x00, 0x04, 0x00, 0x12, 0x00, 0x00, 0x00, 0x04, 0x01, 0x23, 0x45, 0x67,
];

#[test]
fn test_compilation_unit_32() {
    let offset = 0;
    let offset_size = 4;
    let endian = LittleEndian;
    let data = [0x01, 0x23, 0x45, 0x67];
    let write_val = CompilationUnit {
        common: UnitCommon {
            offset: offset,
            endian: endian,
            version: 4,
            address_size: 4,
            offset_size: offset_size,
            abbrev_offset: 0x12,
            data: From::from(&data[..]),
        },
    };

    let mut buf = Vec::new();
    write_val.write(&mut buf).unwrap();

    let mut r = &buf[..];
    let read_val = CompilationUnit::read(&mut r, offset, endian).unwrap();

    assert_eq!(&buf[..], [
        0x0b, 0x00, 0x00, 0x00,
        0x04, 0x00,
        0x12, 0x00, 0x00, 0x00,
        0x04,
        0x01, 0x23, 0x45, 0x67
    ]);
    assert_eq!(r.len(), 0);
    assert_eq!(read_val, write_val);
}

#[test]
fn test_compilation_unit_64() {
    let offset = 0;
    let offset_size = 8;
    let endian = LittleEndian;
    let data = [0x01, 0x23, 0x45, 0x67];
    let write_val = CompilationUnit {
        common: UnitCommon {
            offset: offset,
            endian: endian,
            version: 4,
            address_size: 4,
            offset_size: offset_size,
            abbrev_offset: 0x12,
            data: From::from(&data[..]),
        },
    };

    let mut buf = Vec::new();
    write_val.write(&mut buf).unwrap();

    let mut r = &buf[..];
    let read_val = CompilationUnit::read(&mut r, offset, endian).unwrap();

    assert_eq!(&buf[..], [
        0xff, 0xff, 0xff, 0xff, 0x0f, 0x00, 0x00, 0x00, 0x00, 0x00, 0x00, 0x00,
        0x04, 0x00,
        0x12, 0x00, 0x00, 0x00, 0x00, 0x00, 0x00, 0x00,
        0x04,
        0x01, 0x23, 0x45, 0x67
    ]);
    assert_eq!(r.len(), 0);
    assert_eq!(read_val, write_val);
}

#[test]
fn test_type_unit_32() {
    let offset = 0;
    let offset_size = 4;
    let endian = LittleEndian;
    let data = [0x01, 0x23, 0x45, 0x67];
    let write_val = TypeUnit {
        common: UnitCommon {
            offset: offset,
            endian: endian,
            version: 4,
            address_size: 4,
            offset_size: offset_size,
            abbrev_offset: 0x12,
            data: From::from(&data[..]),
        },
        type_signature: 0x0123456789abcdef,
        type_offset: 0x02,
    };

    let mut buf = Vec::new();
    write_val.write(&mut buf).unwrap();

    let mut r = &buf[..];
    let read_val = TypeUnit::read(&mut r, offset, endian).unwrap();

    assert_eq!(&buf[..], [
        0x17, 0x00, 0x00, 0x00,
        0x04, 0x00,
        0x12, 0x00, 0x00, 0x00,
        0x04,
        0xef, 0xcd, 0xab, 0x89, 0x67, 0x45, 0x23, 0x01,
        0x02, 0x00, 0x00, 0x00,
        0x01, 0x23, 0x45, 0x67
    ]);
    assert_eq!(r.len(), 0);
    assert_eq!(read_val, write_val);
}

#[test]
fn test_type_unit_64() {
    let offset = 0;
    let offset_size = 8;
    let endian = LittleEndian;
    let data = [0x01, 0x23, 0x45, 0x67];
    let write_val = TypeUnit {
        common: UnitCommon {
            offset: offset,
            endian: endian,
            version: 4,
            address_size: 4,
            offset_size: offset_size,
            abbrev_offset: 0x12,
            data: From::from(&data[..]),
        },
        type_signature: 0x0123456789abcdef,
        type_offset: 0x02,
    };

    let mut buf = Vec::new();
    write_val.write(&mut buf).unwrap();

    let mut r = &buf[..];
    let read_val = TypeUnit::read(&mut r, offset, endian).unwrap();

    assert_eq!(&buf[..], [
        0xff, 0xff, 0xff, 0xff, 0x1f, 0x00, 0x00, 0x00, 0x00, 0x00, 0x00, 0x00,
        0x04, 0x00,
        0x12, 0x00, 0x00, 0x00, 0x00, 0x00, 0x00, 0x00,
        0x04,
        0xef, 0xcd, 0xab, 0x89, 0x67, 0x45, 0x23, 0x01,
        0x02, 0x00, 0x00, 0x00, 0x00, 0x00, 0x00, 0x00,
        0x01, 0x23, 0x45, 0x67
    ]);
    assert_eq!(r.len(), 0);
    assert_eq!(read_val, write_val);
}

#[test]
fn unit_compilation_unit_32() {
    let offset = 0;
    let offset_size = 4;
    let endian = LittleEndian;
    let data = [0x01, 0x23, 0x45, 0x67];
    let write_val = CompilationUnit {
        common: UnitCommon {
            offset: offset,
            endian: endian,
            version: 4,
            address_size: 4,
            offset_size: offset_size,
            abbrev_offset: 0x12,
            data: From::from(&data[..]),
        },
    };

    let mut buf = Vec::new();
    write_val.write(&mut buf).unwrap();

    let mut r = &buf[..];
    let read_val = CompilationUnit::read(&mut r, offset, endian).unwrap();

    assert_eq!(&buf[..], [
        0x0b, 0x00, 0x00, 0x00,
        0x04, 0x00,
        0x12, 0x00, 0x00, 0x00,
        0x04,
        0x01, 0x23, 0x45, 0x67
    ]);
    assert_eq!(r.len(), 0);
    assert_eq!(read_val, write_val);
}

#[test]
fn unit_compilation_unit_64() {
    let offset = 0;
    let offset_size = 8;
    let endian = LittleEndian;
    let data = [0x01, 0x23, 0x45, 0x67];
    let write_val = CompilationUnit {
        common: UnitCommon {
            offset: offset,
            endian: endian,
            version: 4,
            address_size: 4,
            offset_size: offset_size,
            abbrev_offset: 0x12,
            data: From::from(&data[..]),
        },
    };

    let mut buf = Vec::new();
    write_val.write(&mut buf).unwrap();

    let mut r = &buf[..];
    let read_val = CompilationUnit::read(&mut r, offset, endian).unwrap();

    assert_eq!(&buf[..], [
        0xff, 0xff, 0xff, 0xff, 0x0f, 0x00, 0x00, 0x00, 0x00, 0x00, 0x00, 0x00,
        0x04, 0x00,
        0x12, 0x00, 0x00, 0x00, 0x00, 0x00, 0x00, 0x00,
        0x04,
        0x01, 0x23, 0x45, 0x67
    ]);
    assert_eq!(r.len(), 0);
    assert_eq!(read_val, write_val);
}

#[test]
fn unit_type_unit_32() {
    let offset = 0;
    let offset_size = 4;
    let endian = LittleEndian;
    let data = [0x01, 0x23, 0x45, 0x67];
    let write_val = TypeUnit {
        common: UnitCommon {
            offset: offset,
            endian: endian,
            version: 4,
            address_size: 4,
            offset_size: offset_size,
            abbrev_offset: 0x12,
            data: From::from(&data[..]),
        },
        type_signature: 0x0123456789abcdef,
        type_offset: 0x02,
    };

    let mut buf = Vec::new();
    write_val.write(&mut buf).unwrap();

    let mut r = &buf[..];
    let read_val = TypeUnit::read(&mut r, offset, endian).unwrap();

    assert_eq!(&buf[..], [
        0x17, 0x00, 0x00, 0x00,
        0x04, 0x00,
        0x12, 0x00, 0x00, 0x00,
        0x04,
        0xef, 0xcd, 0xab, 0x89, 0x67, 0x45, 0x23, 0x01,
        0x02, 0x00, 0x00, 0x00,
        0x01, 0x23, 0x45, 0x67
    ]);
    assert_eq!(r.len(), 0);
    assert_eq!(read_val, write_val);
}

#[test]
fn unit_type_unit_64() {
    let offset = 0;
    let offset_size = 8;
    let endian = LittleEndian;
    let data = [0x01, 0x23, 0x45, 0x67];
    let write_val = TypeUnit {
        common: UnitCommon {
            offset: offset,
            endian: endian,
            version: 4,
            address_size: 4,
            offset_size: offset_size,
            abbrev_offset: 0x12,
            data: From::from(&data[..]),
        },
        type_signature: 0x0123456789abcdef,
        type_offset: 0x02,
    };

    let mut buf = Vec::new();
    write_val.write(&mut buf).unwrap();

    let mut r = &buf[..];
    let read_val = TypeUnit::read(&mut r, offset, endian).unwrap();

    assert_eq!(&buf[..], [
        0xff, 0xff, 0xff, 0xff, 0x1f, 0x00, 0x00, 0x00, 0x00, 0x00, 0x00, 0x00,
        0x04, 0x00,
        0x12, 0x00, 0x00, 0x00, 0x00, 0x00, 0x00, 0x00,
        0x04,
        0xef, 0xcd, 0xab, 0x89, 0x67, 0x45, 0x23, 0x01,
        0x02, 0x00, 0x00, 0x00, 0x00, 0x00, 0x00, 0x00,
        0x01, 0x23, 0x45, 0x67
    ]);
    assert_eq!(r.len(), 0);
    assert_eq!(read_val, write_val);
}

#[test]
fn unit_header_offsets() {
    let data = [0x01, 0x23, 0x45, 0x67];
    assert_eq!(cu(4, &data).data_offset(), 11);
    assert_eq!(cu(8, &data).data_offset(), 23);
    assert_eq!(tu(4, &data).data_offset(), 23);
    assert_eq!(tu(8, &data).data_offset(), 39);
    assert_eq!(cu(4, &data).common.len(), 4);
}

#[test]
fn unit_bad_version_is_unsupported() {
    let mut bytes = CU_32;
    bytes[4] = 5;
    let mut r = &bytes[..];
    match CompilationUnit::read(&mut r, 0, LittleEndian) {
        Err(ReadError::Unsupported) => {}
        otherwise => panic!("{:?}", otherwise),
    }
}

#[test]
fn unit_reserved_length_is_unsupported() {
    let bytes = [0xf0, 0xff, 0xff, 0xff, 0x04, 0x00];
    let mut r = &bytes[..];
    match CompilationUnit::read(&mut r, 0, LittleEndian) {
        Err(ReadError::Unsupported) => {}
        otherwise => panic!("{:?}", otherwise),
    }
}

#[test]
fn unit_length_past_end_is_invalid() {
    let bytes = [0x20, 0x00, 0x00, 0x00, 0x04, 0x00];
    let mut r = &bytes[..];
    match CompilationUnit::read(&mut r, 0, LittleEndian) {
        Err(ReadError::Invalid) => {}
        otherwise => panic!("{:?}", otherwise),
    }
}

#[test]
fn unit_short_length_is_eof() {
    let bytes = [0x0b, 0x00];
    let mut r = &bytes[..];
    match CompilationUnit::read(&mut r, 0, LittleEndian) {
        Err(ReadError::Eof) => {}
        otherwise => panic!("{:?}", otherwise),
    }
}

#[test]
fn unit_bad_offset_size_is_unsupported() {
    let data = [0x01];
    let mut buf = Vec::new();
    match cu(5, &data).write(&mut buf) {
        Err(WriteError::Unsupported) => {}
        otherwise => panic!("{:?}", otherwise),
    }
    assert!(buf.is_empty());
}

#[test]
fn unit_iterator_walks_units() {
    let mut section = Vec::new();
    section.extend_from_slice(&CU_32);
    section.extend_from_slice(&CU_32);
    let sections = dwarf::Sections {
        endian: LittleEndian,
        debug_abbrev: vec![],
        debug_info: section,
        debug_line: vec![],
        debug_str: vec![],
        debug_types: vec![],
    };
    let mut units = sections.compilation_units();
    let first = units.next().unwrap().unwrap();
    assert_eq!(first.common.offset, 0);
    assert_eq!(units.offset(), 15);
    let second = units.next().unwrap().unwrap();
    assert_eq!(second.common.offset, 15);
    assert_eq!(second.data(), &[0x01, 0x23, 0x45, 0x67][..]);
    assert!(units.next().unwrap().is_none());
    match sections.abbrev(&first.common) {
        Err(ReadError::Invalid) => {}
        otherwise => panic!("{:?}", otherwise),
    }
}

#[test]
fn type_unit_iterator_walks_units() {
    let sections = dwarf::Sections {
        endian: LittleEndian,
        debug_abbrev: vec![],
        debug_info: vec![],
        debug_line: vec![],
        debug_str: vec![],
        debug_types: vec![
            0xff, 0xff, 0xff, 0xff, 0x1f, 0x00, 0x00, 0x00, 0x00, 0x00, 0x00, 0x00, 0x04, 0x00, 0x12,
            0x00, 0x00, 0x00, 0x00, 0x00, 0x00, 0x00, 0x04, 0xef, 0xcd, 0xab, 0x89, 0x67, 0x45, 0x23,
            0x01, 0x02, 0x00, 0x00, 0x00, 0x00, 0x00, 0x00, 0x00, 0x01, 0x23, 0x45, 0x67,
        ],
    };
    let mut units = sections.type_units();
    let unit = units.next().unwrap().unwrap();
    assert_eq!(unit.type_signature, 0x0123456789abcdef);
    assert_eq!(unit.type_offset, 2);
    assert!(units.next().unwrap().is_none());
}
