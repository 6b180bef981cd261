use vstd::prelude::*;
use vstd::slice::slice_subrange;

use crate::abbrev::{abbrev_table_decode, AbbrevHash};
use crate::constant::{DW_AT_comp_dir, DW_AT_name, DW_AT_stmt_list};
use crate::die::{
    attr_offset, attr_string, cursor_next, find_attr, fixed_decode, null_die, sized_decode, write_bytes,
    CursorCtx, CursorState, DieIterator, DieSpec,
};
use crate::line::{line_program_decode, FileSpec, LineIterator, LineProgram};
use crate::endian::{uint_bytes, Endian};
use crate::read::{initial_length, read_initial_length, read_offset, read_u8, ReadError};
use crate::write::{write_offset, write_u8, WriteError};

verus! {

/// What governs the decoding of a unit's entries.
pub struct Encoding {
    pub version: u16,
    pub address_size: u8,
    pub offset_size: u8,
    pub big: bool,
}

/// The header fields shared by compilation units and type units, and the
/// unit's entries.
#[derive(Debug, PartialEq, Eq)]
pub struct UnitCommon<'data, E: Endian> {
    /// Offset of the unit within its section.
    pub offset: usize,
    pub endian: E,
    pub version: u16,
    pub address_size: u8,
    /// 4 for DWARF32, 8 for DWARF64.
    pub offset_size: u8,
    pub abbrev_offset: u64,
    /// The entries, after the header.
    pub data: &'data [u8],
}

impl<'data, E: Endian> UnitCommon<'data, E> {
    pub open spec fn encoding(&self) -> Encoding {
        Encoding {
            version: self.version,
            address_size: self.address_size,
            offset_size: self.offset_size,
            big: self.endian.spec_big(),
        }
    }
}

impl<'data, E: Endian + Default> Default for UnitCommon<'data, E> {
    /// A DWARF32 unit of version 4 with 4-byte addresses and no entries.
    fn default() -> (r: Self)
        ensures
            r.offset == 0 && r.version == 4 && r.address_size == 4 && r.offset_size == 4
                && r.abbrev_offset == 0 && r.data@.len() == 0,
    {
        UnitCommon {
            offset: 0,
            endian: E::default(),
            version: 4,
            address_size: 4,
            offset_size: 4,
            abbrev_offset: 0,
            data: &[],
        }
    }
}

/// The header fields of a unit.
pub struct UnitHeader {
    pub offset_size: u8,
    pub version: u16,
    pub abbrev_offset: u64,
    pub address_size: u8,
}

/// The header at the start of `s` and the body after it within the declared
/// length, and the bytes the whole unit takes.
pub open spec fn unit_decode(s: Seq<u8>, big: bool) -> Result<(UnitHeader, Seq<u8>, nat), ReadError> {
    match initial_length(s, big) {
        Ok((offset_size, len, h)) => {
            let body = s.subrange(h as int, (h + len) as int);
            match fixed_decode(body, 2, big) {
                Ok((version, n1)) => if version < 2 || version > 4 {
                    Err(ReadError::Unsupported)
                } else {
                    match sized_decode(body.skip(2), offset_size, big) {
                        Ok((abbrev_offset, n2)) => {
                            let rest = body.skip((2 + n2) as int);
                            if rest.len() == 0 {
                                Err(ReadError::Eof)
                            } else {
                                Ok(
                                    (
                                        UnitHeader {
                                            offset_size,
                                            version: version as u16,
                                            abbrev_offset: abbrev_offset as u64,
                                            address_size: rest[0],
                                        },
                                        rest.drop_first(),
                                        h + len,
                                    ),
                                )
                            }
                        },
                        Err(e) => Err(e),
                    }
                },
                Err(e) => Err(e),
            }
        },
        Err(e) => Err(e),
    }
}

/// The bytes of an initial length: 4 bytes, or 0xffffffff and 8 bytes.
pub open spec fn initial_length_bytes(offset_size: u8, len: nat, big: bool) -> Seq<u8> {
    if offset_size == 4 {
        uint_bytes(len, 4, big)
    } else {
        uint_bytes(0xffff_ffff, 4, big) + uint_bytes(len, 8, big)
    }
}

/// The header that `UnitCommon::write` writes for a unit whose length after
/// the initial length is `len`; only offset sizes 4 and 8 can be written, and a
/// DWARF32 length must be below 0xfffffff0.
pub open spec fn header_encode(h: UnitHeader, len: nat, big: bool) -> Result<Seq<u8>, WriteError> {
    if h.offset_size == 4 && len >= 0xffff_fff0 {
        Err(WriteError::Invalid)
    } else if h.offset_size != 4 && h.offset_size != 8 {
        Err(WriteError::Unsupported)
    } else {
        Ok(
            initial_length_bytes(h.offset_size, len, big) + uint_bytes(h.version as nat, 2, big) + uint_bytes(
                h.abbrev_offset as nat,
                h.offset_size as nat,
                big,
            ) + seq![h.address_size],
        )
    }
}

impl<'data, E: Endian> UnitCommon<'data, E> {
    pub open spec fn header(&self) -> UnitHeader {
        UnitHeader {
            offset_size: self.offset_size,
            version: self.version,
            abbrev_offset: self.abbrev_offset,
            address_size: self.address_size,
        }
    }

    pub fn data(&self) -> (r: &'data [u8])
        ensures
            r@ == self.data@,
    {
        self.data
    }

    pub fn len(&self) -> (r: usize)
        ensures
            r == self.data@.len(),
    {
        self.data.len()
    }

    /// Reads the unit's abbreviation table out of `.debug_abbrev`; an offset
    /// outside it is `Invalid`.
    pub fn abbrev(&self, debug_abbrev: &[u8]) -> (res: Result<AbbrevHash, ReadError>)
        ensures
            self.abbrev_offset >= debug_abbrev@.len() ==> res == Err::<AbbrevHash, ReadError>(ReadError::Invalid),
            self.abbrev_offset < debug_abbrev@.len() ==> match abbrev_table_decode(
                debug_abbrev@.skip(self.abbrev_offset as int),
            ) {
                Ok((m, n)) => res is Ok && res->Ok_0@ == m,
                Err(e) => res == Err::<AbbrevHash, ReadError>(e),
            },
    {
        let len = debug_abbrev.len();
        if self.abbrev_offset >= len as u64 {
            return Err(ReadError::Invalid);
        }
        let offset = self.abbrev_offset as usize;
        let mut r = slice_subrange(debug_abbrev, offset, len);
        assert(r@ =~= debug_abbrev@.skip(self.abbrev_offset as int));
        AbbrevHash::read(&mut r)
    }

    /// A cursor over the entries, which start at `data_offset`.
    pub fn entries<'a>(&'a self, data_offset: usize, abbrev: &'a AbbrevHash) -> (r: DieIterator<'a, 'data, E>)
        requires
            data_offset + self.data@.len() <= usize::MAX,
        ensures
            r.wf(),
            r.state() == (crate::die::CursorState { rem: self.data@, pos: data_offset as int, entry: crate::die::null_die(0) }),
            r.ctx() == (crate::die::CursorCtx { enc: self.encoding(), abbrevs: abbrev@, unit_offset: self.offset as int }),
    {
        DieIterator::new(self.data, data_offset, self, abbrev)
    }

    /// A cursor that starts at the entry at `offset`, when that lies within the
    /// entries, which start at `data_offset`.
    pub fn entry<'a>(&'a self, data_offset: usize, offset: usize, abbrev: &'a AbbrevHash) -> (r: Option<DieIterator<'a, 'data, E>>)
        requires
            data_offset + self.data@.len() <= usize::MAX,
        ensures
            offset < data_offset || offset - data_offset >= self.data@.len() ==> r is None,
            !(offset < data_offset || offset - data_offset >= self.data@.len()) ==> (r matches Some(it) && it.wf()
                && it.state() == (crate::die::CursorState {
                    rem: self.data@.skip(offset - data_offset),
                    pos: offset as int,
                    entry: crate::die::null_die(0),
                }) && it.ctx() == (crate::die::CursorCtx { enc: self.encoding(), abbrevs: abbrev@, unit_offset: self.offset as int })),
    {
        if offset < data_offset {
            return None;
        }
        let relative_offset = offset - data_offset;
        if relative_offset >= self.data.len() {
            return None;
        }
        let rest = slice_subrange(self.data, relative_offset, self.data.len());
        assert(rest@ =~= self.data@.skip(relative_offset as int));
        Some(DieIterator::new(rest, offset, self, abbrev))
    }

    /// Reads a unit header at `offset` in its section and returns it with the
    /// body that follows the header; the header's own `data` is left empty.
    pub fn read(r: &mut &'data [u8], offset: usize, endian: E) -> (res: Result<(UnitCommon<'data, E>, &'data [u8]), ReadError>)
        ensures
            match unit_decode(old(r)@, endian.spec_big()) {
                Ok((h, body, n)) => res matches Ok((u, data)) && u.header() == h && u.offset == offset
                    && u.endian == endian && u.data@.len() == 0 && data@ == body && final(r)@ == old(r)@.skip(n as int),
                Err(e) => res == Err::<(UnitCommon<'data, E>, &'data [u8]), ReadError>(e),
            },
    {
        let ghost s0 = r@;
        // The length of a slice fits in usize; the proof needs that of `r`.
        let _ = r.len();
        let (offset_size, len) = read_initial_length(r, endian)?;
        let ghost h = initial_length(s0, endian.spec_big())->Ok_0.2;
        assert(r@ == s0.skip(h as int));
        assert(len <= r@.len());
        let after = *r;
        let mut data = slice_subrange(after, 0, len);
        assert(data@ =~= s0.subrange(h as int, h + len));
        let ghost body = data@;
        let version = endian.read_u16(&mut data)?;
        if version < 2 || version > 4 {
            return Err(ReadError::Unsupported);
        }
        let ghost b1 = data@;
        let abbrev_offset = read_offset(&mut data, endian, offset_size)?;
        let ghost b2 = data@;
        proof {
            assert(b1 =~= body.skip(2));
            let n2 = sized_decode(b1, offset_size, endian.spec_big())->Ok_0.1;
            assert(b2 =~= body.skip((2 + n2) as int));
        }
        let address_size = read_u8(&mut data)?;
        *r = slice_subrange(after, len, after.len());
        assert(r@ =~= s0.skip(h + len));
        Ok(
            (
                UnitCommon {
                    offset,
                    endian,
                    version,
                    address_size,
                    offset_size,
                    abbrev_offset,
                    data: &[],
                },
                data,
            ),
        )
    }

    /// Writes the header of a unit whose length after the initial length is
    /// `len`. Nothing is written on error.
    pub fn write(&self, w: &mut Vec<u8>, len: usize) -> (res: Result<(), WriteError>)
        ensures
            match header_encode(self.header(), len as nat, self.endian.spec_big()) {
                Ok(b) => res is Ok && final(w)@ == old(w)@ + b,
                Err(e) => res == Err::<(), WriteError>(e) && final(w)@ == old(w)@,
            },
    {
        let ghost w0 = w@;
        if self.offset_size == 4 {
            if len as u64 >= 0xffff_fff0 {
                return Err(WriteError::Invalid);
            }
            self.endian.write_u32(w, len as u32);
        } else if self.offset_size == 8 {
            self.endian.write_u32(w, 0xffff_ffff);
            self.endian.write_u64(w, len as u64);
        } else {
            return Err(WriteError::Unsupported);
        }
        let ghost w1 = w@;
        self.endian.write_u16(w, self.version);
        let ghost w2 = w@;
        let _ = write_offset(w, self.endian, self.offset_size, self.abbrev_offset);
        write_u8(w, self.address_size);
        assert(w@ =~= w0 + header_encode(self.header(), len as nat, self.endian.spec_big())->Ok_0);
        Ok(())
    }
}

/// Header bytes after the initial length: version, abbreviation offset and
/// address size, and for a type unit its signature and type offset.
pub open spec fn base_header_len(offset_size: u8, type_unit: bool) -> nat {
    if type_unit {
        (2 + offset_size + 1 + 8 + offset_size) as nat
    } else {
        (2 + offset_size + 1) as nat
    }
}

/// The bytes of an initial length with the given offset size.
pub open spec fn initial_length_len(offset_size: u8) -> nat {
    if offset_size == 8 {
        12
    } else {
        4
    }
}

fn base_len(offset_size: u8, type_unit: bool) -> (r: usize)
    ensures
        r == base_header_len(offset_size, type_unit),
{
    if type_unit {
        2 + offset_size as usize + 1 + 8 + offset_size as usize
    } else {
        2 + offset_size as usize + 1
    }
}

fn initial_len(offset_size: u8) -> (r: usize)
    ensures
        r == initial_length_len(offset_size),
{
    if offset_size == 8 {
        12
    } else {
        4
    }
}

/// The bytes that write a compilation unit: its header, then its entries.
pub open spec fn compilation_unit_encode(h: UnitHeader, data: Seq<u8>, big: bool) -> Result<Seq<u8>, WriteError> {
    let len = base_header_len(h.offset_size, false) + data.len();
    if len > usize::MAX {
        Err(WriteError::Invalid)
    } else {
        match header_encode(h, len, big) {
            Ok(b) => Ok(b + data),
            Err(e) => Err(e),
        }
    }
}

/// The bytes that write a type unit: its header, signature and type offset,
/// then its entries.
pub open spec fn type_unit_encode(h: UnitHeader, signature: u64, type_offset: u64, data: Seq<u8>, big: bool) -> Result<
    Seq<u8>,
    WriteError,
> {
    let len = base_header_len(h.offset_size, true) + data.len();
    if len > usize::MAX {
        Err(WriteError::Invalid)
    } else {
        match header_encode(h, len, big) {
            Ok(b) => Ok(
                b + uint_bytes(signature as nat, 8, big) + uint_bytes(type_offset as nat, h.offset_size as nat, big)
                    + data,
            ),
            Err(e) => Err(e),
        }
    }
}

/// The body of a type unit after its header fields: signature, type offset
/// and entries.
pub open spec fn type_body_decode(body: Seq<u8>, offset_size: u8, big: bool) -> Result<(u64, u64, Seq<u8>), ReadError> {
    match fixed_decode(body, 8, big) {
        Ok((signature, n1)) => match sized_decode(body.skip(8), offset_size, big) {
            Ok((type_offset, n2)) => Ok((signature as u64, type_offset as u64, body.skip((8 + n2) as int))),
            Err(e) => Err(e),
        },
        Err(e) => Err(e),
    }
}

/// Where the line program of a unit whose first entry is `d` lies in
/// `debug_line`, and the unit's directory and name: `None` when the entry has
/// no statement list.
pub open spec fn line_program_place(d: DieSpec, debug_line: Seq<u8>, debug_str: Seq<u8>) -> Result<
    Option<(nat, Seq<u8>, Seq<u8>)>,
    ReadError,
> {
    match find_attr(d.attributes, DW_AT_stmt_list) {
        None => Ok(None),
        Some(v) => match attr_offset(v) {
            None => Err(ReadError::Invalid),
            Some(off) => {
                let dir = match find_attr(d.attributes, DW_AT_comp_dir) {
                    None => Some(Seq::<u8>::empty()),
                    Some(a) => attr_string(a, debug_str),
                };
                match dir {
                    None => Err(ReadError::Invalid),
                    Some(dir) => match find_attr(d.attributes, DW_AT_name) {
                        None => Err(ReadError::Invalid),
                        Some(n) => match attr_string(n, debug_str) {
                            None => Err(ReadError::Invalid),
                            Some(name) => if off >= debug_line.len() {
                                Err(ReadError::Invalid)
                            } else {
                                Ok(Some((off, dir, name)))
                            },
                        },
                    },
                }
            },
        },
    }
}

proof fn lemma_initial_length_round_trip(offset_size: u8, len: nat, big: bool, tail: Seq<u8>)
    requires
        offset_size == 4 && len < 0xffff_fff0 || offset_size == 8 && len < 0x1_0000_0000_0000_0000,
        len <= tail.len(),
    ensures
        initial_length_bytes(offset_size, len, big).len() == if offset_size == 4 { 4nat } else { 12nat },
        initial_length(initial_length_bytes(offset_size, len, big) + tail, big) == Ok::<(u8, nat, nat), ReadError>(
            (offset_size, len, if offset_size == 4 { 4nat } else { 12nat }),
        ),
{
    crate::endian::lemma_pow256_values();
    let il = initial_length_bytes(offset_size, len, big);
    let s = il + tail;
    if offset_size == 4 {
        crate::endian::lemma_uint_round_trip(len, 4, big);
        crate::die::lemma_fixed_round_trip(len, 4, big, tail);
    } else {
        crate::endian::lemma_uint_round_trip(0xffff_ffff, 4, big);
        crate::endian::lemma_uint_round_trip(len, 8, big);
        crate::die::lemma_fixed_round_trip(0xffff_ffff, 4, big, uint_bytes(len, 8, big) + tail);
        assert(s =~= uint_bytes(0xffff_ffff, 4, big) + (uint_bytes(len, 8, big) + tail));
        crate::die::lemma_fixed_round_trip(len, 8, big, tail);
        assert(s.subrange(4, 12) =~= (uint_bytes(len, 8, big) + tail).take(8));
    }
    assert(s.take(4) =~= (il + tail).take(4));
}

/// A compilation unit that `CompilationUnit::write` writes, with a version
/// from 2 to 4 and, for DWARF32, an abbreviation offset below 2^32, reads back
/// with the same header fields and the same entry bytes, taking all the
/// written bytes whatever follows them.
#[verifier::rlimit(50)]
pub proof fn lemma_compilation_unit_round_trip(h: UnitHeader, data: Seq<u8>, big: bool, rest: Seq<u8>)
    requires
        compilation_unit_encode(h, data, big) is Ok,
        2 <= h.version <= 4,
        h.offset_size == 8 || h.abbrev_offset < 0x1_0000_0000,
    ensures
        unit_decode(compilation_unit_encode(h, data, big)->Ok_0 + rest, big) == Ok::<(UnitHeader, Seq<u8>, nat), ReadError>(
            (h, data, compilation_unit_encode(h, data, big)->Ok_0.len()),
        ),
{
    crate::endian::lemma_pow256_values();
    let len = base_header_len(h.offset_size, false) + data.len();
    let il = initial_length_bytes(h.offset_size, len, big);
    let vb = uint_bytes(h.version as nat, 2, big);
    let ob = uint_bytes(h.abbrev_offset as nat, h.offset_size as nat, big);
    let body = vb + ob + seq![h.address_size] + data;
    let s = compilation_unit_encode(h, data, big)->Ok_0 + rest;
    crate::endian::lemma_uint_round_trip(h.version as nat, 2, big);
    crate::endian::lemma_uint_round_trip(h.abbrev_offset as nat, h.offset_size as nat, big);
    assert(s =~= il + (body + rest));
    let hl: nat = if h.offset_size == 4 { 4 } else { 12 };
    lemma_initial_length_round_trip(h.offset_size, len, big, body + rest);
    assert(body.len() == len);
    assert(s.subrange(hl as int, (hl + len) as int) =~= body);
    crate::die::lemma_fixed_round_trip(h.version as nat, 2, big, ob + seq![h.address_size] + data);
    assert(body =~= vb + (ob + seq![h.address_size] + data));
    assert(body.skip(2) =~= ob + (seq![h.address_size] + data));
    crate::die::lemma_fixed_round_trip(h.abbrev_offset as nat, h.offset_size as nat, big, seq![h.address_size] + data);
    assert(body.skip((2 + h.offset_size) as int) =~= seq![h.address_size] + data);
    assert((seq![h.address_size] + data).drop_first() =~= data);
}

/// A compilation unit.
#[derive(Debug, PartialEq, Eq)]
pub struct CompilationUnit<'data, E: Endian> {
    pub common: UnitCommon<'data, E>,
}

impl<'data, E: Endian + Default> Default for CompilationUnit<'data, E> {
    fn default() -> (r: Self)
        ensures
            r.common.offset == 0 && r.common.version == 4 && r.common.address_size == 4
                && r.common.offset_size == 4 && r.common.abbrev_offset == 0 && r.common.data@.len() == 0,
    {
        CompilationUnit { common: UnitCommon::default() }
    }
}

impl<'data, E: Endian> CompilationUnit<'data, E> {
    /// The offset of the entries in the section.
    pub open spec fn spec_data_offset(&self) -> int {
        self.common.offset + initial_length_len(self.common.offset_size) + base_header_len(self.common.offset_size, false)
    }

    pub fn data(&self) -> (r: &'data [u8])
        ensures
            r@ == self.common.data@,
    {
        self.common.data()
    }

    /// The offset of the entries in the section.
    pub fn data_offset(&self) -> (r: usize)
        requires
            self.spec_data_offset() <= usize::MAX,
        ensures
            r == self.spec_data_offset(),
    {
        self.common.offset + initial_len(self.common.offset_size) + base_len(self.common.offset_size, false)
    }

    pub fn abbrev(&self, debug_abbrev: &[u8]) -> (res: Result<AbbrevHash, ReadError>)
        ensures
            self.common.abbrev_offset >= debug_abbrev@.len() ==> res == Err::<AbbrevHash, ReadError>(ReadError::Invalid),
            self.common.abbrev_offset < debug_abbrev@.len() ==> match abbrev_table_decode(
                debug_abbrev@.skip(self.common.abbrev_offset as int),
            ) {
                Ok((m, n)) => res is Ok && res->Ok_0@ == m,
                Err(e) => res == Err::<AbbrevHash, ReadError>(e),
            },
    {
        self.common.abbrev(debug_abbrev)
    }

    /// A cursor over the unit's entries.
    pub fn entries<'a>(&'a self, abbrev: &'a AbbrevHash) -> (r: DieIterator<'a, 'data, E>)
        requires
            self.spec_data_offset() + self.common.data@.len() <= usize::MAX,
        ensures
            r.wf(),
            r.state() == (crate::die::CursorState {
                rem: self.common.data@,
                pos: self.spec_data_offset(),
                entry: crate::die::null_die(0),
            }),
            r.ctx() == (crate::die::CursorCtx {
                enc: self.common.encoding(),
                abbrevs: abbrev@,
                unit_offset: self.common.offset as int,
            }),
    {
        self.common.entries(self.data_offset(), abbrev)
    }

    /// A cursor that starts at the entry at `offset` in the section.
    pub fn entry<'a>(&'a self, offset: usize, abbrev: &'a AbbrevHash) -> (r: Option<DieIterator<'a, 'data, E>>)
        requires
            self.spec_data_offset() + self.common.data@.len() <= usize::MAX,
        ensures
            offset < self.spec_data_offset() || offset - self.spec_data_offset() >= self.common.data@.len() ==> r is None,
            !(offset < self.spec_data_offset() || offset - self.spec_data_offset() >= self.common.data@.len()) ==> (r matches Some(it)
                && it.wf() && it.state() == (crate::die::CursorState {
                rem: self.common.data@.skip(offset - self.spec_data_offset()),
                pos: offset as int,
                entry: crate::die::null_die(0),
            })),
    {
        self.common.entry(self.data_offset(), offset, abbrev)
    }

    /// The first entry of the unit, read with `abbrev`.
    pub open spec fn first_entry(&self, abbrev: Map<u64, crate::abbrev::AbbrevSpec>) -> Result<Option<CursorState>, ReadError> {
        cursor_next(
            CursorState { rem: self.common.data@, pos: self.spec_data_offset(), entry: null_die(0) },
            CursorCtx { enc: self.common.encoding(), abbrevs: abbrev, unit_offset: self.common.offset as int },
        )
    }

    /// The unit's line program, which its first entry's statement list locates
    /// in `.debug_line`; `None` when there is no statement list. A unit without
    /// entries is `Invalid`.
    pub fn line_program(&self, debug_line: &'data [u8], debug_str: &'data [u8], abbrev: &AbbrevHash) -> (res: Result<
        Option<LineProgram<'data, E>>,
        ReadError,
    >)
        requires
            self.spec_data_offset() + self.common.data@.len() <= usize::MAX,
        ensures
            match self.first_entry(abbrev@) {
                Err(e) => res == Err::<Option<LineProgram<'data, E>>, ReadError>(e),
                Ok(None) => res == Err::<Option<LineProgram<'data, E>>, ReadError>(ReadError::Invalid),
                Ok(Some(st)) => match line_program_place(st.entry, debug_line@, debug_str@) {
                    Err(e) => res == Err::<Option<LineProgram<'data, E>>, ReadError>(e),
                    Ok(None) => res matches Ok(None),
                    Ok(Some((off, dir, name))) => match line_program_decode(debug_line@.skip(off as int), self.common.endian.spec_big()) {
                        Ok((p, n)) => res matches Ok(Some(lp)) && lp.wf() && lp.offset == off
                            && lp.endian == self.common.endian && lp.offset_size == p.offset_size
                            && lp.address_size == self.common.address_size && lp.version == p.version
                            && lp.address_step == p.address_step && lp.operation_range == p.operation_range
                            && lp.default_statement == p.default_statement && lp.line_base == p.line_base
                            && lp.line_range == p.line_range && lp.opcode_base == p.opcode_base
                            && lp.standard_opcode_lengths@ == p.standard_opcode_lengths
                            && lp.directories_view() == seq![dir] + p.include_directories
                            && lp.files_view() == seq![FileSpec { path: name, directory: 0, timestamp: 0, length: 0 }] + p.files
                            && lp.data@ == p.data,
                        Err(e) => res == Err::<Option<LineProgram<'data, E>>, ReadError>(e),
                    },
                },
            },
    {
        let mut entries = self.entries(abbrev);
        let entry = match entries.next()? {
            Some(entry) => entry,
            None => return Err(ReadError::Invalid),
        };
        let offset = match entry.attr(DW_AT_stmt_list) {
            Some(offset) => offset,
            None => return Ok(None),
        };
        let offset = match offset.as_offset() {
            Some(offset) => offset,
            None => return Err(ReadError::Invalid),
        };
        let empty: &'data [u8] = &[];
        let comp_dir: &'data [u8] = match entry.attr(DW_AT_comp_dir) {
            Some(attr) => match attr.as_string(debug_str) {
                Some(dir) => dir,
                None => return Err(ReadError::Invalid),
            },
            None => empty,
        };
        assert(empty@ =~= Seq::<u8>::empty());
        let comp_name = match entry.attr(DW_AT_name) {
            Some(attr) => attr,
            None => return Err(ReadError::Invalid),
        };
        let comp_name = match comp_name.as_string(debug_str) {
            Some(name) => name,
            None => return Err(ReadError::Invalid),
        };
        if offset >= debug_line.len() {
            return Err(ReadError::Invalid);
        }
        let mut r = slice_subrange(debug_line, offset, debug_line.len());
        assert(r@ =~= debug_line@.skip(offset as int));
        let program = LineProgram::read(&mut r, offset, self.common.endian, self.common.address_size, comp_dir, comp_name)?;
        Ok(Some(program))
    }

    /// An iterator over the rows of the unit's line program.
    pub fn lines(&self, debug_line: &'data [u8], debug_str: &'data [u8], abbrev: &AbbrevHash) -> (res: Result<
        Option<LineIterator<'data, E>>,
        ReadError,
    >)
        requires
            self.spec_data_offset() + self.common.data@.len() <= usize::MAX,
        ensures
            match self.first_entry(abbrev@) {
                Err(e) => res == Err::<Option<LineIterator<'data, E>>, ReadError>(e),
                Ok(None) => res == Err::<Option<LineIterator<'data, E>>, ReadError>(ReadError::Invalid),
                Ok(Some(st)) => match line_program_place(st.entry, debug_line@, debug_str@) {
                    Err(e) => res == Err::<Option<LineIterator<'data, E>>, ReadError>(e),
                    Ok(None) => res matches Ok(None),
                    Ok(Some((off, dir, name))) => match line_program_decode(debug_line@.skip(off as int), self.common.endian.spec_big()) {
                        Ok((p, n)) => res matches Ok(Some(it)) && it.program().wf() && it.rest() == p.data
                            && it.line() == crate::line::initial_line(p.default_statement)
                            && it.program().endian == self.common.endian && it.program().offset == off
                            && it.program().address_size == self.common.address_size
                            && it.program().version == p.version && it.program().offset_size == p.offset_size
                            && it.program().address_step == p.address_step
                            && it.program().operation_range == p.operation_range
                            && it.program().default_statement == p.default_statement
                            && it.program().line_base == p.line_base && it.program().line_range == p.line_range
                            && it.program().opcode_base == p.opcode_base
                            && it.program().standard_opcode_lengths@ == p.standard_opcode_lengths
                            && it.program().directories_view() == seq![dir] + p.include_directories
                            && it.program().files_view() == seq![FileSpec { path: name, directory: 0, timestamp: 0, length: 0 }] + p.files,
                        Err(e) => res == Err::<Option<LineIterator<'data, E>>, ReadError>(e),
                    },
                },
            },
    {
        let program = self.line_program(debug_line, debug_str, abbrev)?;
        match program {
            Some(program) => Ok(Some(program.into_lines())),
            None => Ok(None),
        }
    }

    /// Reads a compilation unit at `offset` in `.debug_info`.
    pub fn read(r: &mut &'data [u8], offset: usize, endian: E) -> (res: Result<CompilationUnit<'data, E>, ReadError>)
        ensures
            match unit_decode(old(r)@, endian.spec_big()) {
                Ok((h, body, n)) => res matches Ok(u) && u.common.header() == h && u.common.offset == offset
                    && u.common.endian == endian && u.common.data@ == body && final(r)@ == old(r)@.skip(n as int),
                Err(e) => res == Err::<CompilationUnit<'data, E>, ReadError>(e),
            },
    {
        let (mut common, data) = UnitCommon::read(r, offset, endian)?;
        common.data = data;
        Ok(CompilationUnit { common })
    }

    /// Writes the unit: its header, then its entries. Nothing is written on
    /// error.
    pub fn write(&self, w: &mut Vec<u8>) -> (res: Result<(), WriteError>)
        ensures
            match compilation_unit_encode(self.common.header(), self.common.data@, self.common.endian.spec_big()) {
                Ok(b) => res is Ok && final(w)@ == old(w)@ + b,
                Err(e) => res == Err::<(), WriteError>(e) && final(w)@ == old(w)@,
            },
    {
        let base = base_len(self.common.offset_size, false);
        if self.common.len() > usize::MAX - base {
            return Err(WriteError::Invalid);
        }
        let len = base + self.common.len();
        self.common.write(w, len)?;
        write_bytes(w, self.data());
        assert(final(w)@ =~= old(w)@ + compilation_unit_encode(self.common.header(), self.common.data@, self.common.endian.spec_big())->Ok_0);
        Ok(())
    }
}

/// A type unit: a unit that describes one type, named by its signature.
#[derive(Debug, PartialEq, Eq)]
pub struct TypeUnit<'data, E: Endian> {
    pub common: UnitCommon<'data, E>,
    pub type_signature: u64,
    /// The offset of the type's entry.
    pub type_offset: u64,
}

impl<'data, E: Endian> TypeUnit<'data, E> {
    /// The offset of the entries in the section.
    pub open spec fn spec_data_offset(&self) -> int {
        self.common.offset + initial_length_len(self.common.offset_size) + base_header_len(self.common.offset_size, true)
    }

    pub fn data(&self) -> (r: &'data [u8])
        ensures
            r@ == self.common.data@,
    {
        self.common.data()
    }

    /// The offset of the entries in the section.
    pub fn data_offset(&self) -> (r: usize)
        requires
            self.spec_data_offset() <= usize::MAX,
        ensures
            r == self.spec_data_offset(),
    {
        self.common.offset + initial_len(self.common.offset_size) + base_len(self.common.offset_size, true)
    }

    pub fn abbrev(&self, debug_abbrev: &[u8]) -> (res: Result<AbbrevHash, ReadError>)
        ensures
            self.common.abbrev_offset >= debug_abbrev@.len() ==> res == Err::<AbbrevHash, ReadError>(ReadError::Invalid),
            self.common.abbrev_offset < debug_abbrev@.len() ==> match abbrev_table_decode(
                debug_abbrev@.skip(self.common.abbrev_offset as int),
            ) {
                Ok((m, n)) => res is Ok && res->Ok_0@ == m,
                Err(e) => res == Err::<AbbrevHash, ReadError>(e),
            },
    {
        self.common.abbrev(debug_abbrev)
    }

    /// A cursor over the unit's entries.
    pub fn entries<'a>(&'a self, abbrev: &'a AbbrevHash) -> (r: DieIterator<'a, 'data, E>)
        requires
            self.spec_data_offset() + self.common.data@.len() <= usize::MAX,
        ensures
            r.wf(),
            r.state() == (crate::die::CursorState {
                rem: self.common.data@,
                pos: self.spec_data_offset(),
                entry: crate::die::null_die(0),
            }),
    {
        self.common.entries(self.data_offset(), abbrev)
    }

    /// A cursor that starts at the entry at `offset` in the section.
    pub fn entry<'a>(&'a self, offset: usize, abbrev: &'a AbbrevHash) -> (r: Option<DieIterator<'a, 'data, E>>)
        requires
            self.spec_data_offset() + self.common.data@.len() <= usize::MAX,
        ensures
            offset < self.spec_data_offset() || offset - self.spec_data_offset() >= self.common.data@.len() ==> r is None,
            !(offset < self.spec_data_offset() || offset - self.spec_data_offset() >= self.common.data@.len()) ==> (r matches Some(it)
                && it.wf() && it.state() == (crate::die::CursorState {
                rem: self.common.data@.skip(offset - self.spec_data_offset()),
                pos: offset as int,
                entry: crate::die::null_die(0),
            })),
    {
        self.common.entry(self.data_offset(), offset, abbrev)
    }

    /// A cursor that starts at the type's entry, when `type_offset` lies
    /// within the entries.
    pub fn type_entry<'a>(&'a self, abbrev: &'a AbbrevHash) -> (r: Option<DieIterator<'a, 'data, E>>)
        requires
            self.spec_data_offset() + self.common.data@.len() <= usize::MAX,
        ensures
            self.type_offset < self.spec_data_offset() || self.type_offset - self.spec_data_offset() >= self.common.data@.len() ==> r is None,
            !(self.type_offset < self.spec_data_offset() || self.type_offset - self.spec_data_offset() >= self.common.data@.len()) ==> (r matches Some(it)
                && it.wf() && it.state() == (crate::die::CursorState {
                rem: self.common.data@.skip(self.type_offset - self.spec_data_offset()),
                pos: self.type_offset as int,
                entry: crate::die::null_die(0),
            })),
    {
        let data_offset = self.data_offset();
        if self.type_offset >= (data_offset + self.common.len()) as u64 {
            return None;
        }
        self.common.entry(data_offset, self.type_offset as usize, abbrev)
    }

    /// Reads a type unit at `offset` in `.debug_types`.
    pub fn read(r: &mut &'data [u8], offset: usize, endian: E) -> (res: Result<TypeUnit<'data, E>, ReadError>)
        ensures
            match unit_decode(old(r)@, endian.spec_big()) {
                Ok((h, body, n)) => match type_body_decode(body, h.offset_size, endian.spec_big()) {
                    Ok((signature, type_offset, data)) => res matches Ok(u) && u.common.header() == h
                        && u.common.offset == offset && u.common.endian == endian && u.type_signature == signature
                        && u.type_offset == type_offset && u.common.data@ == data && final(r)@ == old(r)@.skip(n as int),
                    Err(e) => res == Err::<TypeUnit<'data, E>, ReadError>(e),
                },
                Err(e) => res == Err::<TypeUnit<'data, E>, ReadError>(e),
            },
    {
        let (mut common, mut data) = UnitCommon::read(r, offset, endian)?;
        let ghost body = data@;
        let type_signature = endian.read_u64(&mut data)?;
        let ghost b1 = data@;
        let type_offset = read_offset(&mut data, endian, common.offset_size)?;
        proof {
            assert(b1 =~= body.skip(8));
            let n2 = sized_decode(b1, common.offset_size, endian.spec_big())->Ok_0.1;
            assert(data@ =~= body.skip((8 + n2) as int));
        }
        common.data = data;
        Ok(TypeUnit { common, type_signature, type_offset })
    }

    /// Writes the unit: its header, signature and type offset, then its
    /// entries. Nothing is written on error.
    pub fn write(&self, w: &mut Vec<u8>) -> (res: Result<(), WriteError>)
        ensures
            match type_unit_encode(self.common.header(), self.type_signature, self.type_offset, self.common.data@, self.common.endian.spec_big()) {
                Ok(b) => res is Ok && final(w)@ == old(w)@ + b,
                Err(e) => res == Err::<(), WriteError>(e) && final(w)@ == old(w)@,
            },
    {
        let base = base_len(self.common.offset_size, true);
        if self.common.len() > usize::MAX - base {
            return Err(WriteError::Invalid);
        }
        let len = base + self.common.len();
        self.common.write(w, len)?;
        self.common.endian.write_u64(w, self.type_signature);
        let _ = write_offset(w, self.common.endian, self.common.offset_size, self.type_offset);
        write_bytes(w, self.data());
        assert(final(w)@ =~= old(w)@ + type_unit_encode(self.common.header(), self.type_signature, self.type_offset, self.common.data@, self.common.endian.spec_big())->Ok_0);
        Ok(())
    }
}

/// Walks the compilation units of `.debug_info` in order.
#[derive(Debug)]
pub struct CompilationUnitIterator<'data, E: Endian> {
    endian: E,
    data: &'data [u8],
    offset: usize,
}

impl<'data, E: Endian> CompilationUnitIterator<'data, E> {
    /// The bytes not yet read.
    pub closed spec fn rest(&self) -> Seq<u8> {
        self.data@
    }

    pub closed spec fn pos(&self) -> int {
        self.offset as int
    }

    pub closed spec fn big(&self) -> bool {
        self.endian.spec_big()
    }

    /// The byte order of the section.
    pub closed spec fn endian(&self) -> E {
        self.endian
    }

    pub closed spec fn wf(&self) -> bool {
        self.offset + self.data@.len() <= usize::MAX
    }

    pub fn new(endian: E, data: &'data [u8]) -> (r: Self)
        ensures
            r.wf(),
            r.rest() == data@,
            r.pos() == 0,
            r.big() == endian.spec_big(),
            r.endian() == endian,
    {
        // The length of a slice fits in usize; the proof needs that of `data`.
        let _ = data.len();
        CompilationUnitIterator { endian, data, offset: 0 }
    }

    /// The offset of the next unit.
    pub fn offset(&self) -> (r: usize)
        ensures
            r == self.pos(),
    {
        self.offset
    }

    /// Reads the next unit; `None` at the end of the section.
    pub fn next(&mut self) -> (res: Result<Option<CompilationUnit<'data, E>>, ReadError>)
        requires
            old(self).wf(),
        ensures
            final(self).wf(),
            final(self).big() == old(self).big(),
            final(self).endian() == old(self).endian(),
            !(res matches Ok(Some(_))) ==> final(self).rest() == old(self).rest() && final(self).pos() == old(self).pos(),
            old(self).rest().len() == 0 ==> res matches Ok(None),
            old(self).rest().len() > 0 ==> match unit_decode(old(self).rest(), old(self).big()) {
                Ok((h, body, n)) => res matches Ok(Some(u)) && u.common.header() == h && u.common.offset == old(self).pos()
                    && u.common.endian == old(self).endian()
                    && u.common.data@ == body && final(self).rest() == old(self).rest().skip(n as int)
                    && final(self).pos() == old(self).pos() + n,
                Err(e) => res == Err::<Option<CompilationUnit<'data, E>>, ReadError>(e),
            },
    {
        if self.data.len() == 0 {
            return Ok(None);
        }
        let mut r = self.data;
        let unit = CompilationUnit::read(&mut r, self.offset, self.endian)?;
        self.offset = self.offset + (self.data.len() - r.len());
        self.data = r;
        Ok(Some(unit))
    }
}

/// Walks the type units of `.debug_types` in order.
#[derive(Debug)]
pub struct TypeUnitIterator<'data, E: Endian> {
    endian: E,
    data: &'data [u8],
    offset: usize,
}

impl<'data, E: Endian> TypeUnitIterator<'data, E> {
    /// The bytes not yet read.
    pub closed spec fn rest(&self) -> Seq<u8> {
        self.data@
    }

    pub closed spec fn pos(&self) -> int {
        self.offset as int
    }

    pub closed spec fn big(&self) -> bool {
        self.endian.spec_big()
    }

    /// The byte order of the section.
    pub closed spec fn endian(&self) -> E {
        self.endian
    }

    pub closed spec fn wf(&self) -> bool {
        self.offset + self.data@.len() <= usize::MAX
    }

    pub fn new(endian: E, data: &'data [u8]) -> (r: Self)
        ensures
            r.wf(),
            r.rest() == data@,
            r.pos() == 0,
            r.big() == endian.spec_big(),
            r.endian() == endian,
    {
        // The length of a slice fits in usize; the proof needs that of `data`.
        let _ = data.len();
        TypeUnitIterator { endian, data, offset: 0 }
    }

    /// The offset of the next unit.
    pub fn offset(&self) -> (r: usize)
        ensures
            r == self.pos(),
    {
        self.offset
    }

    /// Reads the next unit; `None` at the end of the section.
    pub fn next(&mut self) -> (res: Result<Option<TypeUnit<'data, E>>, ReadError>)
        requires
            old(self).wf(),
        ensures
            final(self).wf(),
            final(self).big() == old(self).big(),
            final(self).endian() == old(self).endian(),
            !(res matches Ok(Some(_))) ==> final(self).rest() == old(self).rest() && final(self).pos() == old(self).pos(),
            old(self).rest().len() == 0 ==> res matches Ok(None),
            old(self).rest().len() > 0 ==> match unit_decode(old(self).rest(), old(self).big()) {
                Ok((h, body, n)) => match type_body_decode(body, h.offset_size, old(self).big()) {
                    Ok((signature, type_offset, data)) => res matches Ok(Some(u)) && u.common.header() == h
                        && u.common.offset == old(self).pos() && u.common.endian == old(self).endian()
                        && u.type_signature == signature
                        && u.type_offset == type_offset && u.common.data@ == data
                        && final(self).rest() == old(self).rest().skip(n as int)
                        && final(self).pos() == old(self).pos() + n,
                    Err(e) => res == Err::<Option<TypeUnit<'data, E>>, ReadError>(e),
                },
                Err(e) => res == Err::<Option<TypeUnit<'data, E>>, ReadError>(e),
            },
    {
        if self.data.len() == 0 {
            return Ok(None);
        }
        let mut r = self.data;
        let unit = TypeUnit::read(&mut r, self.offset, self.endian)?;
        self.offset = self.offset + (self.data.len() - r.len());
        self.data = r;
        Ok(Some(unit))
    }
}

} // verus!
