use dwarf::leb128::{read_i64, read_u16, read_u64, write_i64, write_u16, write_u64};
use dwarf::ReadError;

#[test]
fn test_u16() {
    let mut vec = Vec::new();

    // Read/write normal encodings
    for &(mut r, value) in &[
        (&[0x00][..], 0),
        (&[0x01][..], 1),
        (&[0x02][..], 2),
        (&[0x7f][..], 0x7f),
        (&[0x81, 0x02][..], 0x101),
        (&[0xff, 0x7f][..], 0x3fff),
        (&[0xff, 0xff, 0x03][..], 0xffff),
    ] {
        vec.clear();
        write_u16(&mut vec, value);
        assert_eq!(vec, r);

        assert_eq!(read_u16(&mut r).unwrap(), value);
        assert_eq!(r.len(), 0);
    }

    // Read alternative encodings
    for &(mut r, value) in &[
        (&[0x80, 0x00][..], 0),
        (&[0x81, 0x00][..], 1),
        (&[0x80, 0x80, 0x00][..], 0),
        (&[0xff, 0xff, 0x00][..], 0x3fff),
    ] {
        assert_eq!(read_u16(&mut r).unwrap(), value);
        assert_eq!(r.len(), 0);
    }

    // Read overflow
    for &(mut r,) in &[(&[0xff, 0xff, 0x07][..],)] {
        match read_u16(&mut r) {
            Err(ReadError::Overflow) => {}
            otherwise => panic!("{:?}", otherwise),
        };
    }

    // Read EOF
    for &(mut r,) in &[(&[0x80, 0x80, 0x80][..],), (&[0xff, 0xff, 0xff][..],)] {
        match read_u16(&mut r) {
            Err(ReadError::Eof) => {}
            otherwise => panic!("{:?}", otherwise),
        };
    }
}

#[test]
fn test_u64() {
    let mut vec = Vec::new();

    // Read/write normal encodings
    for &(mut r, value) in &[
        (&[0x00][..], 0),
        (&[0x01][..], 1),
        (&[0x02][..], 2),
        (&[0x7f][..], 0x7f),
        (&[0x81, 0x02][..], 0x101),
        (&[0xff, 0x7f][..], 0x3fff),
        (&[0xff, 0xff, 0xff, 0xff, 0xff, 0xff, 0xff, 0xff, 0x7f][..], 0x7fffffffffffffff),
        (&[0xff, 0xff, 0xff, 0xff, 0xff, 0xff, 0xff, 0xff, 0xff, 0x01][..], 0xffffffffffffffff),
    ] {
        vec.clear();
        write_u64(&mut vec, value);
        assert_eq!(vec, r);

        assert_eq!(read_u64(&mut r).unwrap(), value);
        assert_eq!(r.len(), 0);
    }

    // Read alternative encodings
    for &(mut r, value) in &[
        (&[0x80, 0x00][..], 0),
        (&[0x81, 0x00][..], 1),
        (&[0x80, 0x80, 0x80, 0x80, 0x80, 0x80, 0x80, 0x80, 0x80, 0x00][..], 0),
        (&[0xff, 0xff, 0xff, 0xff, 0xff, 0xff, 0xff, 0xff, 0xff, 0x00][..], 0x7fffffffffffffff),
    ] {
        assert_eq!(read_u64(&mut r).unwrap(), value);
        assert_eq!(r.len(), 0);
    }

    // Read overflow
    for &(mut r,) in &[
        (&[0x80, 0x80, 0x80, 0x80, 0x80, 0x80, 0x80, 0x80, 0x80, 0x02][..],),
        (&[0x80, 0x80, 0x80, 0x80, 0x80, 0x80, 0x80, 0x80, 0x80, 0x80][..],),
        (&[0xff, 0xff, 0xff, 0xff, 0xff, 0xff, 0xff, 0xff, 0xff, 0x7f][..],),
        (&[0xff, 0xff, 0xff, 0xff, 0xff, 0xff, 0xff, 0xff, 0xff, 0xff][..],),
    ] {
        match read_u64(&mut r) {
            Err(ReadError::Overflow) => {}
            otherwise => panic!("{:?}", otherwise),
        };
    }

    // Read EOF
    for &(mut r,) in &[(&[0x80][..],), (&[0xff, 0xff][..],)] {
        match read_u64(&mut r) {
            Err(ReadError::Eof) => {}
            otherwise => panic!("{:?}", otherwise),
        };
    }
}

#[test]
fn test_i64() {
    let mut vec = Vec::new();

    // Read/write normal encodings
    for &(mut r, value) in &[
        (&[0x00][..], 0),
        (&[0x01][..], 1),
        (&[0x02][..], 2),
        (&[0x3f][..], 0x3f),
        (&[0x40][..], -0x40),
        (&[0x7f][..], -1),
        (&[0xff, 0x00][..], 0x7f),
        (&[0x80, 0x01][..], 0x80),
        (&[0x81, 0x01][..], 0x81),
        (&[0xff, 0x7e][..], -0x81),
        (&[0x80, 0x7f][..], -0x80),
        (&[0x81, 0x7f][..], -0x7f),
        (&[0xff, 0x3f][..], 0x1fff),
        (&[0x80, 0x40][..], -0x2000),
        (&[0xff, 0xff, 0xff, 0xff, 0xff, 0xff, 0xff, 0xff, 0x3f][..], 0x3fffffffffffffff),
        (&[0x80, 0x80, 0x80, 0x80, 0x80, 0x80, 0x80, 0x80, 0x40][..], -0x4000000000000000),
        (&[0x80, 0x80, 0x80, 0x80, 0x80, 0x80, 0x80, 0x80, 0xc0, 0x00][..], 0x4000000000000000),
        (&[0xff, 0xff, 0xff, 0xff, 0xff, 0xff, 0xff, 0xff, 0xff, 0x00][..], 0x7fffffffffffffff),
        (&[0x80, 0x80, 0x80, 0x80, 0x80, 0x80, 0x80, 0x80, 0x80, 0x7f][..], -0x8000000000000000),
    ] {
        vec.clear();
        write_i64(&mut vec, value);
        assert_eq!(vec, r);

        assert_eq!(read_i64(&mut r).unwrap(), value);
        assert_eq!(r.len(), 0);
    }

    // Read alternative encodings
    for &(mut r, value) in &[
        (&[0x80, 0x00][..], 0),
        (&[0x81, 0x00][..], 1),
        (&[0xff, 0x7f][..], -1),
        (&[0x80, 0x80, 0x80, 0x80, 0x80, 0x80, 0x80, 0x80, 0x80, 0x00][..], 0),
        (&[0x80, 0x80, 0x80, 0x80, 0x80, 0x80, 0x80, 0x80, 0x80, 0x7f][..], -0x8000000000000000),
        (&[0xff, 0xff, 0xff, 0xff, 0xff, 0xff, 0xff, 0xff, 0xff, 0x7f][..], -1),
    ] {
        assert_eq!(read_i64(&mut r).unwrap(), value);
        assert_eq!(r.len(), 0);
    }

    // Read overflow
    for &(mut r,) in &[
        (&[0x80, 0x80, 0x80, 0x80, 0x80, 0x80, 0x80, 0x80, 0x80, 0x01][..],),
        (&[0x80, 0x80, 0x80, 0x80, 0x80, 0x80, 0x80, 0x80, 0x80, 0x3f][..],),
        (&[0x80, 0x80, 0x80, 0x80, 0x80, 0x80, 0x80, 0x80, 0x80, 0x40][..],),
        (&[0x80, 0x80, 0x80, 0x80, 0x80, 0x80, 0x80, 0x80, 0x80, 0x41][..],),
        (&[0x80, 0x80, 0x80, 0x80, 0x80, 0x80, 0x80, 0x80, 0x80, 0x80][..],),
        (&[0xff, 0xff, 0xff, 0xff, 0xff, 0xff, 0xff, 0xff, 0xff, 0x01][..],),
        (&[0xff, 0xff, 0xff, 0xff, 0xff, 0xff, 0xff, 0xff, 0xff, 0x3f][..],),
        (&[0xff, 0xff, 0xff, 0xff, 0xff, 0xff, 0xff, 0xff, 0xff, 0xff][..],),
    ] {
        match read_i64(&mut r) {
            Err(ReadError::Overflow) => {}
            otherwise => panic!("{:?}", otherwise),
        };
    }

    // Read EOF
    for &(mut r,) in &[(&[0x80][..],), (&[0xff, 0xff][..],)] {
        match read_i64(&mut r) {
            Err(ReadError::Eof) => {}
            otherwise => panic!("{:?}", otherwise),
        };
    }
}

#[test]
fn u64_boundary_values() {
    let mut r = &[0xff, 0xff, 0xff, 0xff, 0xff, 0xff, 0xff, 0xff, 0x7f][..];
    assert_eq!(read_u64(&mut r).unwrap(), 0x7fff_ffff_ffff_ffff);
    let mut r = &[0xff, 0xff, 0xff, 0xff, 0xff, 0xff, 0xff, 0xff, 0xff, 0x01][..];
    assert_eq!(read_u64(&mut r).unwrap(), 0xffff_ffff_ffff_ffff);
}

#[test]
fn u64_overflow_after_ten_continuations() {
    let mut bytes = vec![0x80u8; 11];
    bytes.push(0xff);
    let mut r = &bytes[..];
    match read_u64(&mut r) {
        Err(ReadError::Overflow) => {}
        otherwise => panic!("{:?}", otherwise),
    }
    // Nothing is consumed on error.
    assert_eq!(r.len(), 12);
}

#[test]
fn leb128_round_trip_samples() {
    for &value in &[0u64, 1, 127, 128, 300, 0x1234_5678, u64::MAX] {
        let mut buf = Vec::new();
        write_u64(&mut buf, value);
        buf.push(0xaa);
        let mut r = &buf[..];
        assert_eq!(read_u64(&mut r).unwrap(), value);
        assert_eq!(r, &[0xaa][..]);
    }
    for &value in &[0i64, -1, 63, -64, 64, -65, i64::MIN, i64::MAX] {
        let mut buf = Vec::new();
        write_i64(&mut buf, value);
        let mut r = &buf[..];
        assert_eq!(read_i64(&mut r).unwrap(), value);
        assert_eq!(r.len(), 0);
    }
    for &value in &[0u16, 0x80, 0xffff] {
        let mut buf = Vec::new();
        write_u16(&mut buf, value);
        let mut r = &buf[..];
        assert_eq!(read_u16(&mut r).unwrap(), value);
    }
}
