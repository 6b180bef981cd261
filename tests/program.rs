use dwarf::abbrev::{Abbrev, AbbrevAttribute, AbbrevHash, AbbrevVec};
use dwarf::constant::{at_name, tag_name, DW_AT_comp_dir, DW_AT_name, DW_AT_stmt_list, DW_FORM_data4, DW_FORM_string, DW_TAG_compile_unit};
use dwarf::die::AttributeData;
use dwarf::line::LineProgram;
use dwarf::unit::{CompilationUnit, UnitCommon};
use dwarf::{LittleEndian, ReadError};

fn line_section() -> Vec<u8> {
    let mut v = vec![48, 0, 0, 0, 4, 0, 31, 0, 0, 0];
    v.extend_from_slice(&[1, 1, 1, 0xfb, 14, 13]);
    v.extend_from_slice(&[0, 1, 1, 1, 1, 0, 0, 0, 1, 0, 0, 1]);
    v.extend_from_slice(b"inc\0\0");
    v.extend_from_slice(b"a.c\0\x01\x00\x00\0");
    v.extend_from_slice(&[0x00, 0x05, 0x02, 0x00, 0x10, 0x00, 0x00, 19, 0x00, 0x01, 0x01]);
    v
}

#[test]
fn line_program_read() {
    let section = line_section();
    let mut r = &section[..];
    let program = LineProgram::read(&mut r, 0, LittleEndian, 4, b"/src", b"main.c").unwrap();
    assert_eq!(r.len(), 0);
    assert_eq!(program.version, 4);
    assert_eq!(program.offset_size, 4);
    assert_eq!(program.line_base, -5);
    assert_eq!(program.line_range, 14);
    assert_eq!(program.opcode_base, 13);
    assert_eq!(program.standard_opcode_lengths.len(), 12);
    assert_eq!(program.include_directories, vec![&b"/src"[..], &b"inc"[..]]);
    assert_eq!(program.files.len(), 2);
    assert_eq!(program.files[0].path, b"main.c");
    assert_eq!(program.files[1].path, b"a.c");
    assert_eq!(program.files[1].directory, 1);

    let mut lines = program.lines();
    let row = *lines.next().unwrap().unwrap().1;
    assert_eq!((row.address, row.line), (0x1000, 2));
    let row = *lines.next().unwrap().unwrap().1;
    assert!(row.sequence_end);
    assert!(lines.next().unwrap().is_none());
    // `lines` leaves the program as it was.
    assert_eq!(program.files.len(), 2);
}

#[test]
fn line_program_header_errors() {
    let mut section = line_section();
    section[4] = 5;
    let mut r = &section[..];
    match LineProgram::read(&mut r, 0, LittleEndian, 4, b"", b"") {
        Err(ReadError::Unsupported) => {}
        Err(e) => panic!("{:?}", e),
        Ok(_) => panic!("no error"),
    }
    let mut section = line_section();
    section[14] = 0; // line_range
    let mut r = &section[..];
    match LineProgram::read(&mut r, 0, LittleEndian, 4, b"", b"") {
        Err(ReadError::Invalid) => {}
        Err(e) => panic!("{:?}", e),
        Ok(_) => panic!("no error"),
    }
    let mut section = line_section();
    section[6] = 200; // header_length past the end
    let mut r = &section[..];
    match LineProgram::read(&mut r, 0, LittleEndian, 4, b"", b"") {
        Err(ReadError::Invalid) => {}
        Err(e) => panic!("{:?}", e),
        Ok(_) => panic!("no error"),
    }
}

#[test]
fn unit_line_program() {
    let abbrevs = AbbrevVec::new(vec![Abbrev {
        code: 1,
        tag: DW_TAG_compile_unit,
        children: false,
        attributes: vec![
            AbbrevAttribute { at: DW_AT_stmt_list, form: DW_FORM_data4 },
            AbbrevAttribute { at: DW_AT_name, form: DW_FORM_string },
            AbbrevAttribute { at: DW_AT_comp_dir, form: DW_FORM_string },
        ],
    }]);
    let mut abbrev_bytes = Vec::new();
    abbrevs.write(&mut abbrev_bytes);
    let abbrev = AbbrevHash::read(&mut &abbrev_bytes[..]).unwrap();
    assert_eq!(abbrevs.iter().count(), 1);

    let entries = [1u8, 0, 0, 0, 0, b'a', b'.', b'c', 0, b'/', b's', b'r', b'c', 0];
    let unit = CompilationUnit {
        common: UnitCommon { endian: LittleEndian, data: &entries[..], ..Default::default() },
    };
    let section = line_section();
    let program = unit.line_program(&section, &[], &abbrev).unwrap().unwrap();
    assert_eq!(program.include_directories[0], b"/src");
    assert_eq!(program.files[0].path, b"a.c");
    let mut lines = unit.lines(&section, &[], &abbrev).unwrap().unwrap();
    assert_eq!(lines.next().unwrap().unwrap().1.address, 0x1000);
}

#[test]
fn unit_without_statement_list() {
    let mut abbrev = AbbrevHash::new();
    abbrev.insert(Abbrev { code: 1, tag: DW_TAG_compile_unit, children: false, attributes: vec![] });
    let entries = [1u8];
    let unit = CompilationUnit {
        common: UnitCommon { endian: LittleEndian, data: &entries[..], ..Default::default() },
    };
    assert!(unit.line_program(&[], &[], &abbrev).unwrap().is_none());
    let empty = CompilationUnit::<LittleEndian>::default();
    match empty.line_program(&[], &[], &abbrev) {
        Err(ReadError::Invalid) => {}
        Err(e) => panic!("{:?}", e),
        Ok(_) => panic!("no error"),
    }
}

#[test]
fn attribute_strings_and_offsets() {
    let debug_str = b"one\0two\0";
    assert_eq!(AttributeData::StringOffset(4).as_string(debug_str), Some(&b"two"[..]));
    assert_eq!(AttributeData::StringOffset(8).as_string(debug_str), None);
    assert_eq!(AttributeData::String(b"x").as_string(debug_str), Some(&b"x"[..]));
    assert_eq!(AttributeData::Data1(1).as_string(debug_str), None);
    assert_eq!(AttributeData::Data4(7).as_offset(), Some(7));
    assert_eq!(AttributeData::SecOffset(9).as_offset(), Some(9));
    assert_eq!(AttributeData::Data8(9).as_offset(), None);
}

#[test]
fn constant_names() {
    assert_eq!(tag_name(0x39), Some("namespace"));
    assert_eq!(tag_name(0x11), Some("compile_unit"));
    assert_eq!(tag_name(0x7777), None);
    assert_eq!(at_name(0x03), Some("name"));
    assert_eq!(at_name(0x10), Some("stmt_list"));
    assert_eq!(at_name(0x7777), None);
}
