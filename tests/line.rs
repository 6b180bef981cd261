use dwarf::line::{FileEntry, LineIterator, LineProgram};
use dwarf::{LittleEndian, ReadError};

const OPCODE_LENGTHS: [u8; 12] = [0, 1, 1, 1, 1, 0, 0, 0, 1, 0, 0, 1];

fn program<'a>(data: &'a [u8]) -> LineProgram<'a, LittleEndian> {
    LineProgram {
        offset: 0,
        endian: LittleEndian,
        version: 4,
        address_size: 4,
        offset_size: 4,
        address_step: 1,
        operation_range: 1,
        default_statement: true,
        line_base: -5,
        line_range: 14,
        opcode_base: 13,
        standard_opcode_lengths: &OPCODE_LENGTHS,
        include_directories: vec![],
        files: vec![],
        data: data,
    }
}

#[test]
fn line_program_minimal() {
    // set_address 0x1000, a special opcode that adds one line, end_sequence.
    let data = [0x00, 0x05, 0x02, 0x00, 0x10, 0x00, 0x00, 13 + 6, 0x00, 0x01, 0x01];
    let mut lines = LineIterator::new(program(&data));

    let first = *lines.next().unwrap().unwrap().1;
    assert_eq!(first.address, 0x1000);
    assert_eq!(first.line, 2);
    assert!(first.statement);
    assert!(!first.sequence_end);

    let second = *lines.next().unwrap().unwrap().1;
    assert_eq!(second.address, 0x1000);
    assert_eq!(second.line, 2);
    assert!(second.sequence_end);

    assert!(lines.next().unwrap().is_none());
}

#[test]
fn line_program_is_deterministic() {
    let data = [0x00, 0x05, 0x02, 0x00, 0x10, 0x00, 0x00, 13 + 6, 0x21, 0x03, 0x7e, 0x01, 0x00, 0x01, 0x01];
    let mut rows = Vec::new();
    for _ in 0..2 {
        let mut lines = LineIterator::new(program(&data));
        let mut these = Vec::new();
        while let Some((_, row)) = lines.next().unwrap() {
            these.push(*row);
        }
        rows.push(these);
    }
    assert_eq!(rows[0], rows[1]);
    assert_eq!(rows[0].len(), 4);
}

#[test]
fn line_program_standard_opcodes() {
    // advance_pc 4, advance_line -1, set_file 2, set_column 7, negate_stmt,
    // set_basic_block, copy.
    let data = [0x02, 0x04, 0x03, 0x7f, 0x04, 0x02, 0x05, 0x07, 0x06, 0x07, 0x01];
    let mut lines = LineIterator::new(program(&data));
    let row = *lines.next().unwrap().unwrap().1;
    assert_eq!(row.address, 4);
    assert_eq!(row.line, 0);
    assert_eq!(row.file, 2);
    assert_eq!(row.column, 7);
    assert!(!row.statement);
    assert!(row.basic_block);
    assert!(lines.next().unwrap().is_none());
}

#[test]
fn line_program_const_add_pc_and_fixed_advance() {
    // const_add_pc adds (255 - 13) / 14 = 17; fixed_advance_pc adds 0x0100.
    let data = [0x08, 0x09, 0x00, 0x01, 0x01];
    let mut lines = LineIterator::new(program(&data));
    let row = *lines.next().unwrap().unwrap().1;
    assert_eq!(row.address, 17 + 0x100);
    assert_eq!(row.operation, 0);
}

#[test]
fn line_program_define_file() {
    let data = [0x00, 0x06, 0x03, b'a', 0, 1, 2, 3, 0x01];
    let mut lines = LineIterator::new(program(&data));
    let (it, _row) = lines.next().unwrap().unwrap();
    assert_eq!(it.files().len(), 1);
    assert_eq!(
        it.files()[0],
        FileEntry { path: b"a", directory: 1, timestamp: 2, length: 3 }
    );
}

#[test]
fn line_program_extended_zero_is_invalid() {
    let data = [0x00, 0x01, 0x00];
    let mut lines = LineIterator::new(program(&data));
    match lines.next() {
        Err(ReadError::Invalid) => {}
        Err(e) => panic!("{:?}", e),
        Ok(_) => panic!("no error"),
    }
}

#[test]
fn line_program_truncated_is_eof() {
    let data = [0x02];
    let mut lines = LineIterator::new(program(&data));
    match lines.next() {
        Err(ReadError::Eof) => {}
        Err(e) => panic!("{:?}", e),
        Ok(_) => panic!("no error"),
    }
}

#[test]
fn file_entry_read() {
    let bytes = [b'f', b'.', b'c', 0, 0x01, 0x80, 0x01, 0x05, 0xaa];
    let mut r = &bytes[..];
    let entry = FileEntry::read(&mut r).unwrap();
    assert_eq!(entry, FileEntry { path: b"f.c", directory: 1, timestamp: 128, length: 5 });
    assert_eq!(r, &[0xaa][..]);
    let default: FileEntry = Default::default();
    assert_eq!(default.path.len(), 0);
}

#[test]
fn line_row_file_resolution() {
    let data = [0x04, 0x01, 0x01];
    let mut p = program(&data);
    p.files = vec![
        FileEntry { path: b"unit.c", directory: 0, timestamp: 0, length: 0 },
        FileEntry { path: b"a.c", directory: 1, timestamp: 0, length: 0 },
    ];
    let mut lines = LineIterator::new(p);
    let file = lines.next().unwrap().unwrap().1.file;
    assert_eq!(file, 1);
    assert_eq!(lines.file(file).path, b"a.c");
    assert_eq!(lines.file(0).path.len(), 0);
    assert_eq!(lines.file(7).path.len(), 0);
}
