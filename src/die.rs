use vstd::prelude::*;
use vstd::slice::slice_subrange;

use crate::abbrev::{AbbrevAttribute, AbbrevHash, AbbrevSpec};
use crate::constant::{
    DW_AT_null, DW_AT_sibling, DW_FORM_addr, DW_FORM_block, DW_FORM_block1, DW_FORM_block2, DW_FORM_block4, DW_FORM_data1, DW_FORM_data2, DW_FORM_data4, DW_FORM_data8, DW_FORM_exprloc, DW_FORM_flag, DW_FORM_flag_present, DW_FORM_indirect, DW_FORM_ref1, DW_FORM_ref2, DW_FORM_ref4, DW_FORM_ref8, DW_FORM_ref_addr, DW_FORM_ref_sig8, DW_FORM_ref_udata, DW_FORM_sdata, DW_FORM_sec_offset, DW_FORM_string, DW_FORM_strp, DW_FORM_udata, DW_TAG_null, DwAt, DwForm, DwTag,
};
use crate::endian::{uint_bytes, uint_value, Endian};
use crate::leb128;
use crate::leb128::{sleb_bytes, sleb_decode, uleb16_decode, uleb_bytes, uleb_decode};
use crate::read::{
    first_nul, has_nul, read_block, read_string, read_u8, ReadError,
};
use crate::unit::{Encoding, UnitCommon};
use crate::write::{write_address, write_offset, write_u8, WriteError};

verus! {

/// The value of an attribute. Blocks, expressions and inline strings borrow
/// from the unit's bytes.
#[derive(Debug, Clone, Copy, PartialEq, Eq)]
pub enum AttributeData<'data> {
    Null,
    Address(u64),
    Block(&'data [u8]),
    Data1(u8),
    Data2(u16),
    Data4(u32),
    Data8(u64),
    UData(u64),
    SData(i64),
    Flag(bool),
    String(&'data [u8]),
    StringOffset(u64),
    Ref(u64),
    RefAddress(u64),
    RefSig(u64),
    SecOffset(u64),
    ExprLoc(&'data [u8]),
}

/// What an attribute value holds.
pub enum AttrValue {
    Null,
    Address(u64),
    Block(Seq<u8>),
    Data1(u8),
    Data2(u16),
    Data4(u32),
    Data8(u64),
    UData(u64),
    SData(i64),
    Flag(bool),
    String(Seq<u8>),
    StringOffset(u64),
    Ref(u64),
    RefAddress(u64),
    RefSig(u64),
    SecOffset(u64),
    ExprLoc(Seq<u8>),
}

impl<'data> View for AttributeData<'data> {
    type V = AttrValue;

    open spec fn view(&self) -> AttrValue {
        match *self {
            AttributeData::Null => AttrValue::Null,
            AttributeData::Address(v) => AttrValue::Address(v),
            AttributeData::Block(b) => AttrValue::Block(b@),
            AttributeData::Data1(v) => AttrValue::Data1(v),
            AttributeData::Data2(v) => AttrValue::Data2(v),
            AttributeData::Data4(v) => AttrValue::Data4(v),
            AttributeData::Data8(v) => AttrValue::Data8(v),
            AttributeData::UData(v) => AttrValue::UData(v),
            AttributeData::SData(v) => AttrValue::SData(v),
            AttributeData::Flag(v) => AttrValue::Flag(v),
            AttributeData::String(b) => AttrValue::String(b@),
            AttributeData::StringOffset(v) => AttrValue::StringOffset(v),
            AttributeData::Ref(v) => AttrValue::Ref(v),
            AttributeData::RefAddress(v) => AttrValue::RefAddress(v),
            AttributeData::RefSig(v) => AttrValue::RefSig(v),
            AttributeData::SecOffset(v) => AttrValue::SecOffset(v),
            AttributeData::ExprLoc(b) => AttrValue::ExprLoc(b@),
        }
    }
}

// ---------------------------------------------------------------------------
// Decoding of attribute values

/// A single byte.
pub open spec fn byte_decode(s: Seq<u8>) -> Result<(nat, nat), ReadError> {
    if s.len() == 0 {
        Err(ReadError::Eof)
    } else {
        Ok((s[0] as nat, 1))
    }
}

/// An `n`-byte integer.
pub open spec fn fixed_decode(s: Seq<u8>, n: nat, big: bool) -> Result<(nat, nat), ReadError> {
    if s.len() < n {
        Err(ReadError::Eof)
    } else {
        Ok((uint_value(s.take(n as int), big), n))
    }
}

/// An integer of 4 or 8 bytes as `size` says.
pub open spec fn sized_decode(s: Seq<u8>, size: u8, big: bool) -> Result<(nat, nat), ReadError> {
    if size == 4 || size == 8 {
        fixed_decode(s, size as nat, big)
    } else {
        Err(ReadError::Unsupported)
    }
}

/// The bytes after a length prefix that `h` decoded.
pub open spec fn block_after(s: Seq<u8>, h: Result<(nat, nat), ReadError>) -> Result<(Seq<u8>, nat), ReadError> {
    match h {
        Ok((len, n)) => if len > s.len() - n {
            Err(ReadError::Invalid)
        } else {
            Ok((s.subrange(n as int, (n + len) as int), n + len))
        },
        Err(e) => Err(e),
    }
}

/// A NUL-terminated string, without its terminator.
pub open spec fn string_decode(s: Seq<u8>) -> Result<(Seq<u8>, nat), ReadError> {
    if has_nul(s) {
        let p = choose|p: int| first_nul(s, p);
        Ok((s.take(p), (p + 1) as nat))
    } else {
        Err(ReadError::Invalid)
    }
}

pub open spec fn num_value(r: Result<(nat, nat), ReadError>, f: spec_fn(nat) -> AttrValue) -> Result<(AttrValue, nat), ReadError> {
    match r {
        Ok((v, n)) => Ok((f(v), n)),
        Err(e) => Err(e),
    }
}

pub open spec fn bytes_value(r: Result<(Seq<u8>, nat), ReadError>, f: spec_fn(Seq<u8>) -> AttrValue) -> Result<(AttrValue, nat), ReadError> {
    match r {
        Ok((v, n)) => Ok((f(v), n)),
        Err(e) => Err(e),
    }
}

/// The value a form reads at the start of `s`, and the bytes it takes.
pub open spec fn form_decode(s: Seq<u8>, enc: Encoding, form: DwForm) -> Result<(AttrValue, nat), ReadError>
    decreases s.len(),
{
    if form == DW_FORM_addr {
        num_value(sized_decode(s, enc.address_size, enc.big), |v: nat| AttrValue::Address(v as u64))
    } else if form == DW_FORM_block2 {
        bytes_value(block_after(s, fixed_decode(s, 2, enc.big)), |b: Seq<u8>| AttrValue::Block(b))
    } else if form == DW_FORM_block4 {
        bytes_value(block_after(s, fixed_decode(s, 4, enc.big)), |b: Seq<u8>| AttrValue::Block(b))
    } else if form == DW_FORM_data2 {
        num_value(fixed_decode(s, 2, enc.big), |v: nat| AttrValue::Data2(v as u16))
    } else if form == DW_FORM_data4 {
        num_value(fixed_decode(s, 4, enc.big), |v: nat| AttrValue::Data4(v as u32))
    } else if form == DW_FORM_data8 {
        num_value(fixed_decode(s, 8, enc.big), |v: nat| AttrValue::Data8(v as u64))
    } else if form == DW_FORM_string {
        bytes_value(string_decode(s), |b: Seq<u8>| AttrValue::String(b))
    } else if form == DW_FORM_block {
        bytes_value(block_after(s, uleb_decode(s)), |b: Seq<u8>| AttrValue::Block(b))
    } else if form == DW_FORM_block1 {
        bytes_value(block_after(s, byte_decode(s)), |b: Seq<u8>| AttrValue::Block(b))
    } else if form == DW_FORM_data1 {
        num_value(byte_decode(s), |v: nat| AttrValue::Data1(v as u8))
    } else if form == DW_FORM_flag {
        num_value(byte_decode(s), |v: nat| AttrValue::Flag(v != 0))
    } else if form == DW_FORM_sdata {
        match sleb_decode(s) {
            Ok((v, n)) => Ok((AttrValue::SData(v as i64), n)),
            Err(e) => Err(e),
        }
    } else if form == DW_FORM_strp {
        num_value(sized_decode(s, enc.offset_size, enc.big), |v: nat| AttrValue::StringOffset(v as u64))
    } else if form == DW_FORM_udata {
        num_value(uleb_decode(s), |v: nat| AttrValue::UData(v as u64))
    } else if form == DW_FORM_ref_addr {
        if enc.version == 2 {
            num_value(sized_decode(s, enc.address_size, enc.big), |v: nat| AttrValue::RefAddress(v as u64))
        } else {
            num_value(sized_decode(s, enc.offset_size, enc.big), |v: nat| AttrValue::RefAddress(v as u64))
        }
    } else if form == DW_FORM_ref1 {
        num_value(byte_decode(s), |v: nat| AttrValue::Ref(v as u64))
    } else if form == DW_FORM_ref2 {
        num_value(fixed_decode(s, 2, enc.big), |v: nat| AttrValue::Ref(v as u64))
    } else if form == DW_FORM_ref4 {
        num_value(fixed_decode(s, 4, enc.big), |v: nat| AttrValue::Ref(v as u64))
    } else if form == DW_FORM_ref8 {
        num_value(fixed_decode(s, 8, enc.big), |v: nat| AttrValue::Ref(v as u64))
    } else if form == DW_FORM_ref_udata {
        num_value(uleb_decode(s), |v: nat| AttrValue::Ref(v as u64))
    } else if form == DW_FORM_indirect {
        match uleb16_decode(s) {
            Ok((f, n)) => {
                proof {
                    crate::abbrev::lemma_uleb16_len(s);
                }
                match form_decode(s.skip(n as int), enc, f) {
                    Ok((v, m)) => Ok((v, n + m)),
                    Err(e) => Err(e),
                }
            },
            Err(e) => Err(e),
        }
    } else if form == DW_FORM_sec_offset {
        num_value(sized_decode(s, enc.offset_size, enc.big), |v: nat| AttrValue::SecOffset(v as u64))
    } else if form == DW_FORM_exprloc {
        bytes_value(block_after(s, uleb_decode(s)), |b: Seq<u8>| AttrValue::ExprLoc(b))
    } else if form == DW_FORM_flag_present {
        Ok((AttrValue::Flag(true), 0))
    } else if form == DW_FORM_ref_sig8 {
        num_value(fixed_decode(s, 8, enc.big), |v: nat| AttrValue::RefSig(v as u64))
    } else {
        Err(ReadError::Unsupported)
    }
}

/// A decoded value takes no more bytes than there are.
pub proof fn lemma_form_len(s: Seq<u8>, enc: Encoding, form: DwForm)
    ensures
        form_decode(s, enc, form) matches Ok((v, n)) ==> n <= s.len(),
    decreases s.len(),
{
    crate::leb128::lemma_uleb_len(s, 0);
    crate::leb128::lemma_sleb_len(s, 0);
    if has_nul(s) {
        crate::read::lemma_first_nul(s);
    }
    if form == DW_FORM_indirect {
        crate::abbrev::lemma_uleb16_len(s);
        if let Ok((f, n)) = uleb16_decode(s) {
            lemma_form_len(s.skip(n as int), enc, f);
        }
    }
}

// ---------------------------------------------------------------------------
// Encoding of attribute values

/// An integer of 4 or 8 bytes as `size` says.
pub open spec fn sized_encode(v: u64, size: u8, big: bool) -> Result<Seq<u8>, WriteError> {
    if size == 4 || size == 8 {
        Ok(uint_bytes(v as nat, size as nat, big))
    } else {
        Err(WriteError::Unsupported)
    }
}

/// A block behind an `n`-byte length prefix; the length must fit.
pub open spec fn block_encode(b: Seq<u8>, n: nat, big: bool) -> Result<Seq<u8>, WriteError> {
    if n < 8 && b.len() >= crate::endian::pow256(n) {
        Err(WriteError::Invalid)
    } else {
        Ok(uint_bytes(b.len(), n, big) + b)
    }
}

/// The bytes that write `v` under `form`. A value of another kind than the
/// form holds, a block too long for its length prefix, and a false flag under
/// `DW_FORM_flag_present` are `Invalid`; an address or offset size other than
/// 4 or 8 is `Unsupported`. References, offsets and addresses keep the low
/// bytes that fit.
pub open spec fn form_encode(v: AttrValue, enc: Encoding, form: DwForm) -> Result<Seq<u8>, WriteError> {
    match v {
        AttrValue::Address(x) => if form == DW_FORM_addr {
            sized_encode(x, enc.address_size, enc.big)
        } else {
            Err(WriteError::Invalid)
        },
        AttrValue::Block(b) => if form == DW_FORM_block1 {
            block_encode(b, 1, enc.big)
        } else if form == DW_FORM_block2 {
            block_encode(b, 2, enc.big)
        } else if form == DW_FORM_block4 {
            block_encode(b, 4, enc.big)
        } else if form == DW_FORM_block {
            Ok(uleb_bytes(b.len()) + b)
        } else {
            Err(WriteError::Invalid)
        },
        AttrValue::Data1(x) => if form == DW_FORM_data1 {
            Ok(seq![x])
        } else {
            Err(WriteError::Invalid)
        },
        AttrValue::Data2(x) => if form == DW_FORM_data2 {
            Ok(uint_bytes(x as nat, 2, enc.big))
        } else {
            Err(WriteError::Invalid)
        },
        AttrValue::Data4(x) => if form == DW_FORM_data4 {
            Ok(uint_bytes(x as nat, 4, enc.big))
        } else {
            Err(WriteError::Invalid)
        },
        AttrValue::Data8(x) => if form == DW_FORM_data8 {
            Ok(uint_bytes(x as nat, 8, enc.big))
        } else {
            Err(WriteError::Invalid)
        },
        AttrValue::UData(x) => if form == DW_FORM_udata {
            Ok(uleb_bytes(x as nat))
        } else {
            Err(WriteError::Invalid)
        },
        AttrValue::SData(x) => if form == DW_FORM_sdata {
            Ok(sleb_bytes(x as int))
        } else {
            Err(WriteError::Invalid)
        },
        AttrValue::Flag(x) => if form == DW_FORM_flag {
            Ok(seq![if x { 1u8 } else { 0u8 }])
        } else if form == DW_FORM_flag_present {
            if x {
                Ok(seq![])
            } else {
                Err(WriteError::Invalid)
            }
        } else {
            Err(WriteError::Invalid)
        },
        AttrValue::String(b) => if form == DW_FORM_string {
            Ok(b.push(0u8))
        } else {
            Err(WriteError::Invalid)
        },
        AttrValue::StringOffset(x) => if form == DW_FORM_strp {
            sized_encode(x, enc.offset_size, enc.big)
        } else {
            Err(WriteError::Invalid)
        },
        AttrValue::Ref(x) => if form == DW_FORM_ref1 {
            Ok(uint_bytes(x as nat, 1, enc.big))
        } else if form == DW_FORM_ref2 {
            Ok(uint_bytes(x as nat, 2, enc.big))
        } else if form == DW_FORM_ref4 {
            Ok(uint_bytes(x as nat, 4, enc.big))
        } else if form == DW_FORM_ref8 {
            Ok(uint_bytes(x as nat, 8, enc.big))
        } else if form == DW_FORM_ref_udata {
            Ok(uleb_bytes(x as nat))
        } else {
            Err(WriteError::Invalid)
        },
        AttrValue::RefAddress(x) => if form == DW_FORM_ref_addr {
            if enc.version == 2 {
                sized_encode(x, enc.address_size, enc.big)
            } else {
                sized_encode(x, enc.offset_size, enc.big)
            }
        } else {
            Err(WriteError::Invalid)
        },
        AttrValue::RefSig(x) => if form == DW_FORM_ref_sig8 {
            Ok(uint_bytes(x as nat, 8, enc.big))
        } else {
            Err(WriteError::Invalid)
        },
        AttrValue::SecOffset(x) => if form == DW_FORM_sec_offset {
            sized_encode(x, enc.offset_size, enc.big)
        } else {
            Err(WriteError::Invalid)
        },
        AttrValue::ExprLoc(b) => if form == DW_FORM_exprloc {
            Ok(uleb_bytes(b.len()) + b)
        } else {
            Err(WriteError::Invalid)
        },
        AttrValue::Null => Err(WriteError::Invalid),
    }
}

/// The bytes that write `v` under `form`, behind the form's code when the
/// encoding is indirect.
pub open spec fn value_encode(v: AttrValue, enc: Encoding, form: DwForm, indirect: bool) -> Result<Seq<u8>, WriteError> {
    match form_encode(v, enc, form) {
        Ok(b) => Ok(if indirect { uleb_bytes(form as nat) + b } else { b }),
        Err(e) => Err(e),
    }
}

// ---------------------------------------------------------------------------
// Reading attribute values

/// The outcome of reading a number whose decoding is `spec`.
pub open spec fn num_read(old: Seq<u8>, new: Seq<u8>, spec: Result<(nat, nat), ReadError>, res: Result<u64, ReadError>) -> bool {
    match spec {
        Ok((v, n)) => res == Ok::<u64, ReadError>(v as u64) && v < 0x1_0000_0000_0000_0000 && new == old.skip(n as int),
        Err(e) => res == Err::<u64, ReadError>(e),
    }
}

/// The outcome of reading bytes whose decoding is `spec`.
pub open spec fn bytes_read(old: Seq<u8>, new: Seq<u8>, spec: Result<(Seq<u8>, nat), ReadError>, res: Result<&[u8], ReadError>) -> bool {
    match spec {
        Ok((v, n)) => res is Ok && res->Ok_0@ == v && new == old.skip(n as int),
        Err(e) => res == Err::<&[u8], ReadError>(e),
    }
}

fn read_byte_num(r: &mut &[u8]) -> (res: Result<u64, ReadError>)
    ensures
        num_read(old(r)@, final(r)@, byte_decode(old(r)@), res),
{
    let b = read_u8(r)?;
    Ok(b as u64)
}

fn read_fixed_num<E: Endian>(r: &mut &[u8], endian: E, n: usize) -> (res: Result<u64, ReadError>)
    requires
        n == 2 || n == 4 || n == 8,
    ensures
        num_read(old(r)@, final(r)@, fixed_decode(old(r)@, n as nat, endian.spec_big()), res),
        res matches Ok(v) ==> v < crate::endian::pow256(n as nat),
{
    proof {
        crate::endian::lemma_pow256_values();
        crate::endian::lemma_uint_value_bound(old(r)@.take(n as int), endian.spec_big());
    }
    if n == 2 {
        let v = endian.read_u16(r)?;
        Ok(v as u64)
    } else if n == 4 {
        let v = endian.read_u32(r)?;
        Ok(v as u64)
    } else {
        endian.read_u64(r)
    }
}

fn read_sized_num<E: Endian>(r: &mut &[u8], endian: E, size: u8) -> (res: Result<u64, ReadError>)
    ensures
        num_read(old(r)@, final(r)@, sized_decode(old(r)@, size, endian.spec_big()), res),
{
    if size == 4 || size == 8 {
        read_fixed_num(r, endian, size as usize)
    } else {
        Err(ReadError::Unsupported)
    }
}

fn read_uleb_num(r: &mut &[u8]) -> (res: Result<u64, ReadError>)
    ensures
        num_read(old(r)@, final(r)@, uleb_decode(old(r)@), res),
{
    leb128::read_u64(r)
}

/// The decoding of a length prefix: one byte, 2 or 4 bytes, or (for any other
/// `width`) unsigned LEB128.
pub open spec fn prefix_decode(s: Seq<u8>, width: u8, big: bool) -> Result<(nat, nat), ReadError> {
    if width == 1 {
        byte_decode(s)
    } else if width == 2 || width == 4 {
        fixed_decode(s, width as nat, big)
    } else {
        uleb_decode(s)
    }
}

/// Reads a block behind a length prefix of the given width.
fn read_counted_block<'a, E: Endian>(r: &mut &'a [u8], endian: E, width: u8) -> (res: Result<&'a [u8], ReadError>)
    ensures
        bytes_read(old(r)@, final(r)@, block_after(old(r)@, prefix_decode(old(r)@, width, endian.spec_big())), res),
{
    let ghost s0 = r@;
    let len = if width == 1 {
        read_byte_num(r)?
    } else if width == 2 || width == 4 {
        read_fixed_num(r, endian, width as usize)?
    } else {
        read_uleb_num(r)?
    };
    let ghost s1 = r@;
    let ghost n = s0.len() - s1.len();
    proof {
        crate::leb128::lemma_uleb_len(s0, 0);
    }
    if len > r.len() as u64 {
        return Err(ReadError::Invalid);
    }
    let val = read_block(r, len as usize)?;
    assert(s1.take(len as int) =~= s0.subrange(n, n + len));
    assert(r@ =~= s0.skip(n + len));
    Ok(val)
}

fn read_inline_string<'a>(r: &mut &'a [u8]) -> (res: Result<&'a [u8], ReadError>)
    ensures
        bytes_read(old(r)@, final(r)@, string_decode(old(r)@), res),
{
    let ghost s0 = r@;
    let res = read_string(r);
    proof {
        if has_nul(s0) {
            let p = choose|p: int| first_nul(s0, p);
            let q = res->Ok_0@.len() as int;
            assert(first_nul(s0, q));
            if p < q {
                assert(s0[p] == 0);
            } else if q < p {
                assert(s0[q] == 0);
            }
        }
    }
    res
}

impl<'data> AttributeData<'data> {
    /// Reads a value of the given form; the indirect form reads the form
    /// first.
    pub fn read<'unit, E: Endian>(r: &mut &'data [u8], unit: &UnitCommon<'unit, E>, form: DwForm) -> (res: Result<AttributeData<'data>, ReadError>)
        ensures
            match form_decode(old(r)@, unit.encoding(), form) {
                Ok((v, n)) => res is Ok && res->Ok_0@ == v && final(r)@ == old(r)@.skip(n as int),
                Err(e) => res == Err::<AttributeData<'data>, ReadError>(e),
            },
        decreases old(r)@.len(),
    {
        proof {
            crate::endian::lemma_pow256_values();
        }
        let e = unit.endian;
        let data = if form == DW_FORM_addr {
            AttributeData::Address(read_sized_num(r, e, unit.address_size)?)
        } else if form == DW_FORM_block2 {
            AttributeData::Block(read_counted_block(r, e, 2)?)
        } else if form == DW_FORM_block4 {
            AttributeData::Block(read_counted_block(r, e, 4)?)
        } else if form == DW_FORM_data2 {
            AttributeData::Data2(read_fixed_num(r, e, 2)? as u16)
        } else if form == DW_FORM_data4 {
            AttributeData::Data4(read_fixed_num(r, e, 4)? as u32)
        } else if form == DW_FORM_data8 {
            AttributeData::Data8(read_fixed_num(r, e, 8)?)
        } else if form == DW_FORM_string {
            AttributeData::String(read_inline_string(r)?)
        } else if form == DW_FORM_block {
            AttributeData::Block(read_counted_block(r, e, 0)?)
        } else if form == DW_FORM_block1 {
            AttributeData::Block(read_counted_block(r, e, 1)?)
        } else if form == DW_FORM_data1 {
            AttributeData::Data1(read_u8(r)?)
        } else if form == DW_FORM_flag {
            AttributeData::Flag(read_u8(r)? != 0)
        } else if form == DW_FORM_sdata {
            AttributeData::SData(leb128::read_i64(r)?)
        } else if form == DW_FORM_strp {
            AttributeData::StringOffset(read_sized_num(r, e, unit.offset_size)?)
        } else if form == DW_FORM_udata {
            AttributeData::UData(read_uleb_num(r)?)
        } else if form == DW_FORM_ref_addr {
            if unit.version == 2 {
                AttributeData::RefAddress(read_sized_num(r, e, unit.address_size)?)
            } else {
                AttributeData::RefAddress(read_sized_num(r, e, unit.offset_size)?)
            }
        } else if form == DW_FORM_ref1 {
            AttributeData::Ref(read_byte_num(r)?)
        } else if form == DW_FORM_ref2 {
            AttributeData::Ref(read_fixed_num(r, e, 2)?)
        } else if form == DW_FORM_ref4 {
            AttributeData::Ref(read_fixed_num(r, e, 4)?)
        } else if form == DW_FORM_ref8 {
            AttributeData::Ref(read_fixed_num(r, e, 8)?)
        } else if form == DW_FORM_ref_udata {
            AttributeData::Ref(read_uleb_num(r)?)
        } else if form == DW_FORM_indirect {
            let ghost s0 = r@;
            proof {
                crate::abbrev::lemma_uleb16_len(s0);
            }
            let f = leb128::read_u16(r)?;
            let ghost s1 = r@;
            let ghost n = uleb16_decode(s0)->Ok_0.1;
            let v = AttributeData::read(r, unit, f)?;
            proof {
                let m = form_decode(s1, unit.encoding(), f)->Ok_0.1;
                lemma_form_len(s1, unit.encoding(), f);
                assert(s1 == s0.skip(n as int));
                assert(r@ =~= s0.skip((n + m) as int));
            }
            v
        } else if form == DW_FORM_sec_offset {
            AttributeData::SecOffset(read_sized_num(r, e, unit.offset_size)?)
        } else if form == DW_FORM_exprloc {
            AttributeData::ExprLoc(read_counted_block(r, e, 0)?)
        } else if form == DW_FORM_flag_present {
            assert(r@ =~= old(r)@.skip(0));
            AttributeData::Flag(true)
        } else if form == DW_FORM_ref_sig8 {
            AttributeData::RefSig(read_fixed_num(r, e, 8)?)
        } else {
            return Err(ReadError::Unsupported);
        };
        Ok(data)
    }
}

/// Appends the `n` low bytes of `v`.
fn write_fixed<E: Endian>(w: &mut Vec<u8>, endian: E, v: u64, n: usize)
    requires
        n <= 8,
    ensures
        final(w)@ == old(w)@ + uint_bytes(v as nat, n as nat, endian.spec_big()),
{
    crate::endian::write_uint(w, v, n, endian.is_big())
}

/// Appends `b` behind a length prefix of `n` bytes, when its length fits.
fn write_counted_block<E: Endian>(w: &mut Vec<u8>, endian: E, b: &[u8], n: usize) -> (res: Result<(), WriteError>)
    requires
        n == 1 || n == 2 || n == 4,
    ensures
        match block_encode(b@, n as nat, endian.spec_big()) {
            Ok(bytes) => res is Ok && final(w)@ == old(w)@ + bytes,
            Err(e) => res == Err::<(), WriteError>(e) && final(w)@ == old(w)@,
        },
{
    proof {
        crate::endian::lemma_pow256_values();
    }
    let limit: usize = if n == 1 {
        0x100
    } else if n == 2 {
        0x10000
    } else {
        0xffff_ffff
    };
    if n == 4 && b.len() as u64 >= 0x1_0000_0000 {
        return Err(WriteError::Invalid);
    }
    if n < 4 && b.len() >= limit {
        return Err(WriteError::Invalid);
    }
    let ghost w0 = w@;
    write_fixed(w, endian, b.len() as u64, n);
    write_bytes(w, b);
    assert(w@ =~= w0 + (uint_bytes(b@.len(), n as nat, endian.spec_big()) + b@));
    Ok(())
}

impl<'data> AttributeData<'data> {
    /// Appends the bytes of the value under `form`; nothing on error.
    fn encode<'unit, E: Endian>(&self, w: &mut Vec<u8>, unit: &UnitCommon<'unit, E>, form: DwForm) -> (res: Result<(), WriteError>)
        ensures
            match form_encode(self@, unit.encoding(), form) {
                Ok(b) => res is Ok && final(w)@ == old(w)@ + b,
                Err(e) => res == Err::<(), WriteError>(e) && final(w)@ == old(w)@,
            },
    {
        let e = unit.endian;
        let ghost w0 = w@;
        match *self {
            AttributeData::Address(v) => if form == DW_FORM_addr {
                write_address(w, e, unit.address_size, v)
            } else {
                Err(WriteError::Invalid)
            },
            AttributeData::Block(b) => if form == DW_FORM_block1 {
                write_counted_block(w, e, b, 1)
            } else if form == DW_FORM_block2 {
                write_counted_block(w, e, b, 2)
            } else if form == DW_FORM_block4 {
                write_counted_block(w, e, b, 4)
            } else if form == DW_FORM_block {
                leb128::write_u64(w, b.len() as u64);
                write_bytes(w, b);
                assert(w@ =~= w0 + (uleb_bytes(b@.len()) + b@));
                Ok(())
            } else {
                Err(WriteError::Invalid)
            },
            AttributeData::Data1(v) => if form == DW_FORM_data1 {
                write_u8(w, v);
                assert(w@ =~= w0 + seq![v]);
                Ok(())
            } else {
                Err(WriteError::Invalid)
            },
            AttributeData::Data2(v) => if form == DW_FORM_data2 {
                write_fixed(w, e, v as u64, 2);
                Ok(())
            } else {
                Err(WriteError::Invalid)
            },
            AttributeData::Data4(v) => if form == DW_FORM_data4 {
                write_fixed(w, e, v as u64, 4);
                Ok(())
            } else {
                Err(WriteError::Invalid)
            },
            AttributeData::Data8(v) => if form == DW_FORM_data8 {
                write_fixed(w, e, v, 8);
                Ok(())
            } else {
                Err(WriteError::Invalid)
            },
            AttributeData::UData(v) => if form == DW_FORM_udata {
                leb128::write_u64(w, v);
                Ok(())
            } else {
                Err(WriteError::Invalid)
            },
            AttributeData::SData(v) => if form == DW_FORM_sdata {
                leb128::write_i64(w, v);
                Ok(())
            } else {
                Err(WriteError::Invalid)
            },
            AttributeData::Flag(v) => if form == DW_FORM_flag {
                let byte: u8 = if v { 1 } else { 0 };
                write_u8(w, byte);
                assert(w@ =~= w0 + seq![byte]);
                Ok(())
            } else if form == DW_FORM_flag_present {
                if v {
                    assert(w@ =~= w0 + Seq::<u8>::empty());
                    Ok(())
                } else {
                    Err(WriteError::Invalid)
                }
            } else {
                Err(WriteError::Invalid)
            },
            AttributeData::String(b) => if form == DW_FORM_string {
                write_bytes(w, b);
                write_u8(w, 0);
                assert(w@ =~= w0 + b@.push(0u8));
                Ok(())
            } else {
                Err(WriteError::Invalid)
            },
            AttributeData::StringOffset(v) => if form == DW_FORM_strp {
                write_offset(w, e, unit.offset_size, v)
            } else {
                Err(WriteError::Invalid)
            },
            AttributeData::Ref(v) => if form == DW_FORM_ref1 {
                write_fixed(w, e, v, 1);
                Ok(())
            } else if form == DW_FORM_ref2 {
                write_fixed(w, e, v, 2);
                Ok(())
            } else if form == DW_FORM_ref4 {
                write_fixed(w, e, v, 4);
                Ok(())
            } else if form == DW_FORM_ref8 {
                write_fixed(w, e, v, 8);
                Ok(())
            } else if form == DW_FORM_ref_udata {
                leb128::write_u64(w, v);
                Ok(())
            } else {
                Err(WriteError::Invalid)
            },
            AttributeData::RefAddress(v) => if form == DW_FORM_ref_addr {
                if unit.version == 2 {
                    write_address(w, e, unit.address_size, v)
                } else {
                    write_offset(w, e, unit.offset_size, v)
                }
            } else {
                Err(WriteError::Invalid)
            },
            AttributeData::RefSig(v) => if form == DW_FORM_ref_sig8 {
                write_fixed(w, e, v, 8);
                Ok(())
            } else {
                Err(WriteError::Invalid)
            },
            AttributeData::SecOffset(v) => if form == DW_FORM_sec_offset {
                write_offset(w, e, unit.offset_size, v)
            } else {
                Err(WriteError::Invalid)
            },
            AttributeData::ExprLoc(b) => if form == DW_FORM_exprloc {
                leb128::write_u64(w, b.len() as u64);
                write_bytes(w, b);
                assert(w@ =~= w0 + (uleb_bytes(b@.len()) + b@));
                Ok(())
            } else {
                Err(WriteError::Invalid)
            },
            AttributeData::Null => Err(WriteError::Invalid),
        }
    }

    /// Writes the value under `form`, behind the form's code when `indirect`.
    /// Nothing is written on error.
    pub fn write<'unit, E: Endian>(&self, w: &mut Vec<u8>, unit: &UnitCommon<'unit, E>, form: DwForm, indirect: bool) -> (res: Result<(), WriteError>)
        ensures
            match value_encode(self@, unit.encoding(), form, indirect) {
                Ok(b) => res is Ok && final(w)@ == old(w)@ + b,
                Err(e) => res == Err::<(), WriteError>(e) && final(w)@ == old(w)@,
            },
    {
        let mut buf: Vec<u8> = Vec::new();
        self.encode(&mut buf, unit, form)?;
        let ghost w0 = w@;
        if indirect {
            leb128::write_u16(w, form);
        }
        w.append(&mut buf);
        proof {
            let b = form_encode(self@, unit.encoding(), form)->Ok_0;
            assert(buf@.len() == 0);
            if indirect {
                assert(w@ =~= w0 + (uleb_bytes(form as nat) + b));
            } else {
                assert(w@ =~= w0 + b);
            }
        }
        Ok(())
    }
}

// ---------------------------------------------------------------------------
// Attributes and entries

/// One attribute of an entry.
#[derive(Debug, Clone, Copy, PartialEq, Eq)]
pub struct Attribute<'data> {
    pub at: DwAt,
    pub data: AttributeData<'data>,
}

/// A debugging information entry. Code 0 is the null entry that ends a list
/// of siblings.
#[derive(Debug, Clone, PartialEq, Eq)]
pub struct Die<'data> {
    pub offset: usize,
    pub code: u64,
    pub tag: DwTag,
    pub children: bool,
    pub attributes: Vec<Attribute<'data>>,
}

/// What an entry holds.
pub struct DieSpec {
    pub offset: usize,
    pub code: u64,
    pub tag: DwTag,
    pub children: bool,
    pub attributes: Seq<(DwAt, AttrValue)>,
}

impl<'data> View for Attribute<'data> {
    type V = (DwAt, AttrValue);

    open spec fn view(&self) -> (DwAt, AttrValue) {
        (self.at, self.data@)
    }
}

impl<'data> View for Die<'data> {
    type V = DieSpec;

    open spec fn view(&self) -> DieSpec {
        DieSpec {
            offset: self.offset,
            code: self.code,
            tag: self.tag,
            children: self.children,
            attributes: self.attributes@.map_values(|a: Attribute<'data>| a@),
        }
    }
}

/// The null entry at `offset`.
pub open spec fn null_die(offset: usize) -> DieSpec {
    DieSpec { offset, code: 0, tag: DW_TAG_null, children: false, attributes: seq![] }
}

/// The attributes that the schema `schema` reads at the start of `s`.
pub open spec fn attributes_decode(s: Seq<u8>, enc: Encoding, schema: Seq<AbbrevAttribute>) -> Result<
    (Seq<(DwAt, AttrValue)>, nat),
    ReadError,
>
    decreases schema.len(),
{
    if schema.len() == 0 {
        Ok((seq![], 0))
    } else {
        match form_decode(s, enc, schema[0].form) {
            Ok((v, n)) => match attributes_decode(s.skip(n as int), enc, schema.drop_first()) {
                Ok((rest, m)) => Ok((seq![(schema[0].at, v)] + rest, n + m)),
                Err(e) => Err(e),
            },
            Err(e) => Err(e),
        }
    }
}

/// The entry at the start of `s`, which lies at `offset`, and the bytes it takes.
pub open spec fn die_decode(s: Seq<u8>, offset: usize, enc: Encoding, abbrevs: Map<u64, AbbrevSpec>) -> Result<
    (DieSpec, nat),
    ReadError,
> {
    match uleb_decode(s) {
        Ok((code, n)) => if code == 0 {
            Ok((null_die(offset), n))
        } else if !abbrevs.contains_key(code as u64) {
            Err(ReadError::Invalid)
        } else {
            let a = abbrevs[code as u64];
            match attributes_decode(s.skip(n as int), enc, a.attributes) {
                Ok((attrs, m)) => Ok(
                    (
                        DieSpec { offset, code: code as u64, tag: a.tag, children: a.children, attributes: attrs },
                        n + m,
                    ),
                ),
                Err(e) => Err(e),
            }
        },
        Err(e) => Err(e),
    }
}

pub proof fn lemma_attributes_len(s: Seq<u8>, enc: Encoding, schema: Seq<AbbrevAttribute>)
    ensures
        attributes_decode(s, enc, schema) matches Ok((v, n)) ==> n <= s.len() && v.len() == schema.len(),
    decreases schema.len(),
{
    if schema.len() > 0 {
        lemma_form_len(s, enc, schema[0].form);
        if let Ok((v, n)) = form_decode(s, enc, schema[0].form) {
            lemma_attributes_len(s.skip(n as int), enc, schema.drop_first());
        }
    }
}

/// A decoded entry takes at least one byte and no more than there are.
pub proof fn lemma_die_len(s: Seq<u8>, offset: usize, enc: Encoding, abbrevs: Map<u64, AbbrevSpec>)
    ensures
        die_decode(s, offset, enc, abbrevs) matches Ok((d, n)) ==> 1 <= n <= s.len(),
{
    crate::leb128::lemma_uleb_len(s, 0);
    if let Ok((code, n)) = uleb_decode(s) {
        if code != 0 && abbrevs.contains_key(code as u64) {
            lemma_attributes_len(s.skip(n as int), enc, abbrevs[code as u64].attributes);
        }
    }
}

/// The bytes that write the attributes `attrs` under the schema `schema`.
pub open spec fn attributes_encode(attrs: Seq<(DwAt, AttrValue)>, schema: Seq<AbbrevAttribute>, enc: Encoding) -> Result<
    Seq<u8>,
    WriteError,
>
    decreases attrs.len(),
{
    if attrs.len() == 0 || schema.len() == 0 {
        Ok(seq![])
    } else if attrs[0].0 != schema[0].at {
        Err(WriteError::Invalid)
    } else {
        match form_encode(attrs[0].1, enc, schema[0].form) {
            Ok(b) => match attributes_encode(attrs.drop_first(), schema.drop_first(), enc) {
                Ok(rest) => Ok(b + rest),
                Err(e) => Err(e),
            },
            Err(e) => Err(e),
        }
    }
}

/// The bytes that write the entry `d` under its abbreviation; an entry that does
/// not agree with it is `Invalid`.
pub open spec fn die_encode(d: DieSpec, enc: Encoding, abbrevs: Map<u64, AbbrevSpec>) -> Result<Seq<u8>, WriteError> {
    if d.code == 0 {
        Ok(uleb_bytes(0))
    } else if !abbrevs.contains_key(d.code) {
        Err(WriteError::Invalid)
    } else {
        let a = abbrevs[d.code];
        if d.children != a.children || d.attributes.len() != a.attributes.len() {
            Err(WriteError::Invalid)
        } else {
            match attributes_encode(d.attributes, a.attributes, enc) {
                Ok(b) => Ok(uleb_bytes(d.code as nat) + b),
                Err(e) => Err(e),
            }
        }
    }
}

/// The first value of the attribute `at` in `attrs`.
pub open spec fn find_attr(attrs: Seq<(DwAt, AttrValue)>, at: DwAt) -> Option<AttrValue>
    decreases attrs.len(),
{
    if attrs.len() == 0 {
        None
    } else if attrs[0].0 == at {
        Some(attrs[0].1)
    } else {
        find_attr(attrs.drop_first(), at)
    }
}

impl<'data> Attribute<'data> {
    pub fn null() -> (r: Self)
        ensures
            r.at == DW_AT_null && r.data@ == AttrValue::Null,
    {
        Attribute { at: DW_AT_null, data: AttributeData::Null }
    }

    /// Reads the value of one attribute of the schema.
    pub fn read<'unit, E: Endian>(r: &mut &'data [u8], unit: &UnitCommon<'unit, E>, abbrev: &AbbrevAttribute) -> (res: Result<Attribute<'data>, ReadError>)
        ensures
            match form_decode(old(r)@, unit.encoding(), abbrev.form) {
                Ok((v, n)) => res is Ok && res->Ok_0@ == (abbrev.at, v) && final(r)@ == old(r)@.skip(n as int),
                Err(e) => res == Err::<Attribute<'data>, ReadError>(e),
            },
    {
        let data = AttributeData::read(r, unit, abbrev.form)?;
        Ok(Attribute { at: abbrev.at, data })
    }

    /// Writes the value under the schema's form; an attribute name other than
    /// the schema's is `Invalid`. Nothing is written on error.
    pub fn write<'unit, E: Endian>(&self, w: &mut Vec<u8>, unit: &UnitCommon<'unit, E>, abbrev: &AbbrevAttribute) -> (res: Result<(), WriteError>)
        ensures
            if self.at != abbrev.at {
                res == Err::<(), WriteError>(WriteError::Invalid) && final(w)@ == old(w)@
            } else {
                match form_encode(self.data@, unit.encoding(), abbrev.form) {
                    Ok(b) => res is Ok && final(w)@ == old(w)@ + b,
                    Err(e) => res == Err::<(), WriteError>(e) && final(w)@ == old(w)@,
                }
            },
    {
        if self.at != abbrev.at {
            return Err(WriteError::Invalid);
        }
        self.data.write(w, unit, abbrev.form, false)
    }
}

impl<'data> Die<'data> {
    pub fn null(offset: usize) -> (r: Self)
        ensures
            r@ == null_die(offset),
    {
        let r = Die { offset, code: 0, tag: DW_TAG_null, children: false, attributes: Vec::new() };
        assert(r@.attributes =~= seq![]);
        r
    }

    pub fn set_null(&mut self, offset: usize)
        ensures
            final(self)@ == null_die(offset),
    {
        self.offset = offset;
        self.code = 0;
        self.tag = DW_TAG_null;
        self.children = false;
        self.attributes.clear();
        assert(self@.attributes =~= seq![]);
    }

    pub fn is_null(&self) -> (r: bool)
        ensures
            r == (self.code == 0),
    {
        self.code == 0
    }

    /// The value of the first attribute named `at`.
    pub fn attr(&self, at: DwAt) -> (r: Option<&AttributeData<'data>>)
        ensures
            match r {
                Some(d) => find_attr(self@.attributes, at) == Some(d@),
                None => find_attr(self@.attributes, at) is None,
            },
    {
        let ghost all = self@.attributes;
        let mut i: usize = 0;
        assert(all.skip(0) =~= all);
        while i < self.attributes.len()
            invariant
                i <= self.attributes@.len(),
                all == self@.attributes,
                find_attr(all, at) == find_attr(all.skip(i as int), at),
            decreases self.attributes.len() - i,
        {
            let ghost rest = all.skip(i as int);
            assert(rest[0] == self.attributes@[i as int]@);
            if self.attributes[i].at == at {
                return Some(&self.attributes[i].data);
            }
            assert(rest.drop_first() =~= all.skip(i + 1));
            i = i + 1;
        }
        None
    }

    /// Reads the entry at `offset`, replacing this one.
    pub fn read<'unit, E: Endian>(&mut self, r: &mut &'data [u8], offset: usize, unit: &UnitCommon<'unit, E>, abbrev_hash: &AbbrevHash) -> (res: Result<(), ReadError>)
        ensures
            match die_decode(old(r)@, offset, unit.encoding(), abbrev_hash@) {
                Ok((d, n)) => res is Ok && final(self)@ == d && final(r)@ == old(r)@.skip(n as int),
                Err(e) => res == Err::<(), ReadError>(e),
            },
    {
        self.set_null(offset);
        let ghost s0 = r@;
        let code = leb128::read_u64(r)?;
        self.code = code;
        if code == 0 {
            assert(self@ == null_die(offset));
            return Ok(());
        }
        let abbrev = match abbrev_hash.get(code) {
            Some(abbrev) => abbrev,
            None => return Err(ReadError::Invalid),
        };
        self.tag = abbrev.tag;
        self.children = abbrev.children;
        let ghost s1 = r@;
        let ghost n1 = s0.len() - s1.len();
        let ghost schema = abbrev.attributes@;
        proof {
            crate::leb128::lemma_uleb_len(s0, 0);
            assert(self@.attributes =~= seq![]);
            assert(schema.skip(0) =~= schema);
            assert(r@ =~= s1.skip(0));
            assert(s1 =~= s0.skip(n1));
            if let Ok((t, k)) = attributes_decode(s1, unit.encoding(), schema) {
                assert(self@.attributes + t =~= t);
            }
        }
        let mut i: usize = 0;
        while i < abbrev.attributes.len()
            invariant
                s0 == old(r)@,
                die_decode(s0, offset, unit.encoding(), abbrev_hash@) == match attributes_decode(s1, unit.encoding(), schema) {
                    Ok((attrs, m)) => Ok::<(DieSpec, nat), ReadError>(
                        (DieSpec { offset, code, tag: abbrev.tag, children: abbrev.children, attributes: attrs }, (n1 + m) as nat),
                    ),
                    Err(e) => Err(e),
                },
                0 <= n1 <= s0.len(),
                s1 == s0.skip(n1),
                schema == abbrev.attributes@,
                i <= schema.len(),
                s1.len() >= r@.len(),
                r@ == s1.skip(s1.len() - r@.len()),
                self.offset == offset && self.code == code && self.tag == abbrev.tag && self.children == abbrev.children,
                attributes_decode(s1, unit.encoding(), schema) == match attributes_decode(r@, unit.encoding(), schema.skip(i as int)) {
                    Ok((t, k)) => Ok((self@.attributes + t, k + (s1.len() - r@.len()) as nat)),
                    Err(e) => Err::<(Seq<(DwAt, AttrValue)>, nat), ReadError>(e),
                },
            decreases abbrev.attributes.len() - i,
        {
            let ghost before = r@;
            let ghost acc = self@.attributes;
            let ghost rest = schema.skip(i as int);
            assert(rest[0] == schema[i as int]);
            assert(rest.drop_first() =~= schema.skip(i + 1));
            proof {
                lemma_form_len(before, unit.encoding(), schema[i as int].form);
            }
            let attribute = Attribute::read(r, unit, &abbrev.attributes[i])?;
            self.attributes.push(attribute);
            proof {
                assert(r@ =~= s1.skip(s1.len() - r@.len()));
                assert(self@.attributes =~= acc.push(attribute@));
                if let Ok((t, k)) = attributes_decode(r@, unit.encoding(), schema.skip(i + 1)) {
                    assert(acc + (seq![attribute@] + t) =~= self@.attributes + t);
                }
            }
            i = i + 1;
        }
        proof {
            assert(schema.skip(i as int) =~= Seq::<AbbrevAttribute>::empty());
            assert(self@.attributes + seq![] =~= self@.attributes);
            assert(s1 =~= s0.skip(n1));
            assert(r@ =~= s0.skip(s0.len() - r@.len()));
        }
        Ok(())
    }

    /// Writes the zero code of a null entry.
    pub fn write_null(w: &mut Vec<u8>)
        ensures
            final(w)@ == old(w)@ + uleb_bytes(0),
    {
        leb128::write_u64(w, 0)
    }

    /// Writes the entry under its abbreviation. Nothing is written on error.
    pub fn write<'unit, E: Endian>(&self, w: &mut Vec<u8>, unit: &UnitCommon<'unit, E>, abbrev_hash: &AbbrevHash) -> (res: Result<(), WriteError>)
        ensures
            match die_encode(self@, unit.encoding(), abbrev_hash@) {
                Ok(b) => res is Ok && final(w)@ == old(w)@ + b,
                Err(e) => res == Err::<(), WriteError>(e) && final(w)@ == old(w)@,
            },
    {
        if self.code == 0 {
            Die::write_null(w);
            return Ok(());
        }
        let abbrev = match abbrev_hash.get(self.code) {
            Some(abbrev) => abbrev,
            None => return Err(WriteError::Invalid),
        };
        if self.children != abbrev.children {
            return Err(WriteError::Invalid);
        }
        if self.attributes.len() != abbrev.attributes.len() {
            return Err(WriteError::Invalid);
        }
        let ghost attrs = self@.attributes;
        let ghost schema = abbrev.attributes@;
        let ghost enc = unit.encoding();
        let mut buf: Vec<u8> = Vec::new();
        leb128::write_u64(&mut buf, self.code);
        let ghost b0 = buf@;
        let mut i: usize = 0;
        assert(attrs.skip(0) =~= attrs);
        assert(schema.skip(0) =~= schema);
        assert(buf@.skip(b0.len() as int) =~= seq![]);
        assert(buf@.take(b0.len() as int) =~= b0);
        proof {
            if let Ok(t) = attributes_encode(attrs, schema, enc) {
                assert(seq![] + t =~= t);
            }
        }
        while i < self.attributes.len()
            invariant
                i <= attrs.len(),
                attrs.len() == schema.len(),
                attrs == self@.attributes,
                schema == abbrev.attributes@,
                attributes_encode(attrs, schema, enc) == match attributes_encode(attrs.skip(i as int), schema.skip(i as int), enc) {
                    Ok(t) => Ok(buf@.skip(b0.len() as int) + t),
                    Err(e) => Err::<Seq<u8>, WriteError>(e),
                },
                buf@.len() >= b0.len(),
                buf@.take(b0.len() as int) == b0,
                b0 == uleb_bytes(self.code as nat),
                enc == unit.encoding(),
                w@ == old(w)@,
                die_encode(self@, enc, abbrev_hash@) == match attributes_encode(attrs, schema, enc) {
                    Ok(b) => Ok(uleb_bytes(self.code as nat) + b),
                    Err(e) => Err::<Seq<u8>, WriteError>(e),
                },
            decreases self.attributes.len() - i,
        {
            let ghost before = buf@;
            let ghost ra = attrs.skip(i as int);
            let ghost rs = schema.skip(i as int);
            assert(ra[0] == self.attributes@[i as int]@);
            assert(rs[0] == schema[i as int]);
            assert(ra.drop_first() =~= attrs.skip(i + 1));
            assert(rs.drop_first() =~= schema.skip(i + 1));
            assert(self.attributes@[i as int].data@ == ra[0].1);
            let written = self.attributes[i].write(&mut buf, unit, &abbrev.attributes[i]);
            if let Err(e) = written {
                assert(attributes_encode(ra, rs, enc) == Err::<Seq<u8>, WriteError>(e));
                return Err(e);
            }
            proof {
                let b = form_encode(ra[0].1, enc, rs[0].form)->Ok_0;
                assert(self.attributes@[i as int].at == abbrev.attributes@[i as int].at);
                assert(form_encode(ra[0].1, enc, rs[0].form) is Ok);
                assert(buf@ == before + b);
                assert(buf@.skip(b0.len() as int) =~= before.skip(b0.len() as int) + b);
                assert(buf@.take(b0.len() as int) =~= b0);
                if let Ok(t) = attributes_encode(attrs.skip(i + 1), schema.skip(i + 1), enc) {
                    assert(before.skip(b0.len() as int) + (b + t) =~= buf@.skip(b0.len() as int) + t);
                }
            }
            i = i + 1;
        }
        proof {
            assert(attrs.skip(i as int) =~= Seq::<(DwAt, AttrValue)>::empty());
            assert(buf@ =~= b0 + buf@.skip(b0.len() as int));
            assert(buf@.skip(b0.len() as int) + seq![] =~= buf@.skip(b0.len() as int));
        }
        w.append(&mut buf);
        Ok(())
    }
}

// ---------------------------------------------------------------------------
// Cursor

/// Where a cursor stands: the bytes left, their offset, and the entry read last.
pub struct CursorState {
    pub rem: Seq<u8>,
    pub pos: int,
    pub entry: DieSpec,
}

/// What a cursor reads with: the unit's encoding, its abbreviations and its offset.
pub struct CursorCtx {
    pub enc: Encoding,
    pub abbrevs: Map<u64, AbbrevSpec>,
    pub unit_offset: int,
}

/// The state after one step of a cursor: `None` at the end of the bytes.
pub open spec fn cursor_next(st: CursorState, ctx: CursorCtx) -> Result<Option<CursorState>, ReadError> {
    if st.rem.len() == 0 {
        Ok(None)
    } else {
        match die_decode(st.rem, st.pos as usize, ctx.enc, ctx.abbrevs) {
            Ok((d, n)) => Ok(Some(CursorState { rem: st.rem.skip(n as int), pos: st.pos + n, entry: d })),
            Err(e) => Err(e),
        }
    }
}

/// Where the current entry's sibling attribute points, when it is a reference
/// ahead of the cursor and within its bytes.
pub open spec fn sibling_target(st: CursorState, ctx: CursorCtx) -> Option<int> {
    match find_attr(st.entry.attributes, DW_AT_sibling) {
        Some(AttrValue::Ref(o)) => {
            let t = ctx.unit_offset + o;
            if t > st.pos && t - st.pos <= st.rem.len() {
                Some(t)
            } else {
                None
            }
        },
        _ => None,
    }
}

/// The state after skipping to the next entry at the depth of the current one,
/// `depth` levels below which the cursor stands.
pub open spec fn sibling_walk(st: CursorState, depth: int, ctx: CursorCtx) -> Result<Option<CursorState>, ReadError>
    decreases st.rem.len(),
{
    let (st1, d1) = if st.entry.children {
        match sibling_target(st, ctx) {
            Some(t) => (CursorState { rem: st.rem.skip(t - st.pos), pos: t, entry: null_die(0) }, depth),
            None => (st, depth + 1),
        }
    } else {
        (st, depth)
    };
    match cursor_next(st1, ctx) {
        Err(e) => Err(e),
        Ok(None) => Ok(None),
        Ok(Some(st2)) => if d1 <= 0 {
            Ok(Some(st2))
        } else {
            proof {
                lemma_die_len(st1.rem, st1.pos as usize, ctx.enc, ctx.abbrevs);
            }
            sibling_walk(st2, if st2.entry.code == 0 { d1 - 1 } else { d1 }, ctx)
        },
    }
}

/// Following a sibling walk never moves back, moves at least one byte, and
/// keeps the end of the bytes where it is.
pub proof fn lemma_sibling_walk_advances(st: CursorState, depth: int, ctx: CursorCtx)
    ensures
        sibling_walk(st, depth, ctx) matches Ok(Some(st2)) ==> st2.pos > st.pos && st2.pos + st2.rem.len()
            == st.pos + st.rem.len() && st2.rem.len() < st.rem.len(),
    decreases st.rem.len(),
{
    let (st1, d1) = if st.entry.children {
        match sibling_target(st, ctx) {
            Some(t) => (CursorState { rem: st.rem.skip(t - st.pos), pos: t, entry: null_die(0) }, depth),
            None => (st, depth + 1),
        }
    } else {
        (st, depth)
    };
    lemma_die_len(st1.rem, st1.pos as usize, ctx.enc, ctx.abbrevs);
    if let Ok(Some(st2)) = cursor_next(st1, ctx) {
        if d1 > 0 {
            lemma_sibling_walk_advances(st2, if st2.entry.code == 0 { d1 - 1 } else { d1 }, ctx);
        }
    }
}

/// Moving a tree walk that stands at depth `depth` to the next entry at depth
/// `target` by siblings: whether there is one, where the cursor then stands and
/// at which depth. `None` when the bytes end first.
pub open spec fn tree_walk(st: CursorState, depth: int, target: int, ctx: CursorCtx) -> Result<
    Option<(bool, CursorState, int)>,
    ReadError,
>
    decreases st.rem.len(),
{
    match sibling_walk(st, 0, ctx) {
        Err(e) => Err(e),
        Ok(None) => Ok(None),
        Ok(Some(st2)) => if depth == target {
            if st2.entry.code == 0 {
                Ok(Some((false, st2, depth - 1)))
            } else {
                Ok(Some((true, st2, depth)))
            }
        } else {
            proof {
                lemma_sibling_walk_advances(st, 0, ctx);
            }
            tree_walk(st2, if st2.entry.code == 0 { depth - 1 } else { depth }, target, ctx)
        },
    }
}

/// A tree walk that finds an entry stands at the target depth.
pub proof fn lemma_tree_walk_found(st: CursorState, depth: int, target: int, ctx: CursorCtx)
    ensures
        tree_walk(st, depth, target, ctx) matches Ok(Some((true, st2, d))) ==> d == target,
    decreases st.rem.len(),
{
    if let Ok(Some(st2)) = sibling_walk(st, 0, ctx) {
        if depth != target {
            lemma_sibling_walk_advances(st, 0, ctx);
            lemma_tree_walk_found(st2, if st2.entry.code == 0 { depth - 1 } else { depth }, target, ctx);
        }
    }
}

/// Moving a tree walk that stands at depth `depth` to the next entry at depth
/// `target`: into the first child when `target` is one deeper, else by
/// siblings.
pub open spec fn tree_next(st: CursorState, depth: int, target: int, ctx: CursorCtx) -> Result<
    Option<(bool, CursorState, int)>,
    ReadError,
> {
    if depth < target {
        if !st.entry.children || depth + 1 != target {
            Ok(Some((false, st, depth)))
        } else {
            match cursor_next(st, ctx) {
                Err(e) => Err(e),
                Ok(None) => Ok(None),
                Ok(Some(st2)) => if st2.entry.code == 0 {
                    Ok(Some((false, st2, depth)))
                } else {
                    Ok(Some((true, st2, depth + 1)))
                },
            }
        }
    } else {
        tree_walk(st, depth, target, ctx)
    }
}

/// A cursor over the entries of a unit, in the order they are stored.
#[derive(Debug)]
pub struct DieIterator<'a, 'data, E: Endian> {
    r: &'data [u8],
    offset: usize,
    unit: &'a UnitCommon<'data, E>,
    abbrev: &'a AbbrevHash,
    entry: Die<'data>,
}

impl<'a, 'data, E: Endian> DieIterator<'a, 'data, E> {
    pub closed spec fn state(&self) -> CursorState {
        CursorState { rem: self.r@, pos: self.offset as int, entry: self.entry@ }
    }

    pub closed spec fn ctx(&self) -> CursorCtx {
        CursorCtx { enc: self.unit.encoding(), abbrevs: self.abbrev@, unit_offset: self.unit.offset as int }
    }

    /// The offset of the end of the bytes fits in `usize`.
    pub closed spec fn wf(&self) -> bool {
        self.offset + self.r@.len() <= usize::MAX
    }

    /// A cursor over `r`, which lies at `offset`; it stands before the first entry.
    pub fn new(r: &'data [u8], offset: usize, unit: &'a UnitCommon<'data, E>, abbrev: &'a AbbrevHash) -> (res: Self)
        requires
            offset + r@.len() <= usize::MAX,
        ensures
            res.wf(),
            res.state() == (CursorState { rem: r@, pos: offset as int, entry: null_die(0) }),
            res.ctx() == (CursorCtx { enc: unit.encoding(), abbrevs: abbrev@, unit_offset: unit.offset as int }),
    {
        DieIterator { r, offset, unit, abbrev, entry: Die::null(0) }
    }

    /// The offset of the next entry.
    pub fn offset(&self) -> (r: usize)
        ensures
            r == self.state().pos,
    {
        self.offset
    }

    /// The entry read last.
    pub fn entry(&self) -> (r: &Die<'data>)
        ensures
            r@ == self.state().entry,
    {
        &self.entry
    }

    /// Reads the next entry, which may be a null entry; `None` at the end of
    /// the bytes. The entry is the cursor's own and changes on the next call.
    pub fn next(&mut self) -> (res: Result<Option<&Die<'data>>, ReadError>)
        requires
            old(self).wf(),
        ensures
            final(self).wf(),
            final(self).ctx() == old(self).ctx(),
            final(self).state().pos >= old(self).state().pos,
            match cursor_next(old(self).state(), old(self).ctx()) {
                Ok(None) => res matches Ok(None) && final(self).state() == old(self).state(),
                Ok(Some(st)) => res matches Ok(Some(d)) && d@ == st.entry && final(self).state() == st,
                Err(e) => res == Err::<Option<&Die<'data>>, ReadError>(e),
            },
    {
        if self.r.len() == 0 {
            return Ok(None);
        }
        let mut r = self.r;
        self.entry.read(&mut r, self.offset, self.unit, self.abbrev)?;
        proof {
            lemma_die_len(self.r@, self.offset, self.unit.encoding(), self.abbrev@);
        }
        self.offset = self.offset + (self.r.len() - r.len());
        self.r = r;
        Ok(Some(&self.entry))
    }
    /// Where the current entry's sibling attribute points, if it is a reference
    /// ahead of the cursor and within its bytes.
    fn sibling_offset(&self) -> (r: Option<usize>)
        requires
            self.wf(),
        ensures
            match sibling_target(self.state(), self.ctx()) {
                Some(t) => r == Some(t as usize),
                None => r is None,
            },
    {
        let ghost all = self.entry@.attributes;
        let mut i: usize = 0;
        assert(all.skip(0) =~= all);
        while i < self.entry.attributes.len()
            invariant
                i <= self.entry.attributes@.len(),
                all == self.entry@.attributes,
                find_attr(all, DW_AT_sibling) == find_attr(all.skip(i as int), DW_AT_sibling),
            decreases self.entry.attributes.len() - i,
        {
            let ghost rest = all.skip(i as int);
            assert(rest[0] == self.entry.attributes@[i as int]@);
            if self.entry.attributes[i].at == DW_AT_sibling {
                if let AttributeData::Ref(o) = self.entry.attributes[i].data {
                    let t = self.unit.offset as u128 + o as u128;
                    if t > self.offset as u128 && t - self.offset as u128 <= self.r.len() as u128 {
                        return Some(t as usize);
                    }
                }
                return None;
            }
            assert(rest.drop_first() =~= all.skip(i + 1));
            i = i + 1;
        }
        None
    }

    /// Skips the current entry's children and reads the entry after them: the
    /// next sibling, or the null entry that ends the siblings. A sibling
    /// attribute that points ahead within the bytes is followed instead of
    /// reading the children. `None` at the end of the bytes.
    #[verifier::rlimit(60)]
    pub fn next_sibling(&mut self) -> (res: Result<Option<&Die<'data>>, ReadError>)
        requires
            old(self).wf(),
        ensures
            final(self).wf(),
            final(self).ctx() == old(self).ctx(),
            final(self).state().pos >= old(self).state().pos,
            match sibling_walk(old(self).state(), 0, old(self).ctx()) {
                Ok(None) => res matches Ok(None),
                Ok(Some(st)) => res matches Ok(Some(d)) && d@ == st.entry && final(self).state() == st,
                Err(e) => res == Err::<Option<&Die<'data>>, ReadError>(e),
            },
    {
        let ghost s0 = self.state();
        let ghost ctx = self.ctx();
        let mut depth: usize = 0;
        loop
            invariant
                self.wf(),
                self.ctx() == ctx,
                ctx == old(self).ctx(),
                s0 == old(self).state(),
                s0.rem.len() <= usize::MAX,
                self.state().pos >= s0.pos,
                depth <= s0.rem.len() - self.state().rem.len(),
                self.state().rem.len() <= s0.rem.len(),
                sibling_walk(s0, 0, ctx) == sibling_walk(self.state(), depth as int, ctx),
            decreases self.state().rem.len(),
        {
            let ghost st = self.state();
            let mut grow = false;
            if self.entry.children {
                match self.sibling_offset() {
                    Some(t) => {
                        let rel = t - self.offset;
                        self.entry.set_null(0);
                        self.offset = t;
                        self.r = slice_subrange(self.r, rel, self.r.len());
                        assert(self.state().rem =~= st.rem.skip(t - st.pos));
                    },
                    None => {
                        grow = true;
                    },
                }
            }
            let ghost st1 = self.state();
            let ghost d1: int = if grow { depth + 1 } else { depth as int };
            proof {
                lemma_die_len(st1.rem, st1.pos as usize, ctx.enc, ctx.abbrevs);
            }
            let next = self.next();
            match next {
                Err(e) => {
                    return Err(e);
                },
                Ok(None) => {
                    return Ok(None);
                },
                Ok(Some(_)) => {},
            }
            proof {
                let n = die_decode(st1.rem, st1.pos as usize, ctx.enc, ctx.abbrevs)->Ok_0.1;
                assert(self.state().rem.len() == st1.rem.len() - n);
                assert(grow ==> st1.rem.len() == st.rem.len());
            }
            if grow {
                depth = depth + 1;
            }
            if depth == 0 {
                return Ok(Some(&self.entry));
            }
            if self.entry.is_null() {
                depth = depth - 1;
            }
        }
    }

    /// A cursor that walks the entries as a tree.
    pub fn tree(self) -> (r: DieTree<'a, 'data, E>)
        requires
            self.wf(),
        ensures
            r.wf(),
            r.cursor() == self,
            r.depth() == 0,
    {
        DieTree { iter: self, depth: 0 }
    }
}

/// Entries walked as a tree: descending into children and moving between
/// siblings.
#[derive(Debug)]
pub struct DieTree<'a, 'data, E: Endian> {
    iter: DieIterator<'a, 'data, E>,
    // The depth of the entry that `next_sibling` of `iter` will return.
    depth: i128,
}

impl<'a, 'data, E: Endian> DieTree<'a, 'data, E> {
    pub closed spec fn cursor(&self) -> DieIterator<'a, 'data, E> {
        self.iter
    }

    pub closed spec fn depth(&self) -> int {
        self.depth as int
    }

    /// The depth never exceeds the offset in size.
    pub closed spec fn wf(&self) -> bool {
        &&& self.iter.wf()
        &&& -(self.iter.offset as int) <= self.depth <= self.iter.offset
    }

    /// An iterator over the entries at the tree walk's current depth.
    pub fn iter<'me>(&'me mut self) -> (r: DieTreeIterator<'me, 'a, 'data, E>)
        requires
            old(self).wf(),
        ensures
            r.tree() == *old(self),
            r.depth() == old(self).depth(),
            !r.done(),
    {
        let depth = self.depth;
        DieTreeIterator::new(self, depth)
    }

    /// Moves to the next entry at depth `depth`; false when there is none.
    #[verifier::rlimit(80)]
    fn next(&mut self, depth: i128) -> (res: Result<bool, ReadError>)
        requires
            old(self).wf(),
        ensures
            final(self).wf(),
            final(self).cursor().ctx() == old(self).cursor().ctx(),
            match tree_next(old(self).cursor().state(), old(self).depth(), depth as int, old(self).cursor().ctx()) {
                Ok(Some((found, st, d))) => res == Ok::<bool, ReadError>(found) && final(self).cursor().state() == st
                    && final(self).depth() == d,
                Ok(None) => res == Ok::<bool, ReadError>(false),
                Err(e) => res == Err::<bool, ReadError>(e),
            },
    {
        let ghost ctx = self.iter.ctx();
        if self.depth < depth {
            // The cursor stands at the parent.
            if !self.iter.entry.children || self.depth + 1 != depth {
                return Ok(false);
            }
            let ghost st = self.iter.state();
            proof {
                lemma_die_len(st.rem, st.pos as usize, ctx.enc, ctx.abbrevs);
            }
            let next = self.iter.next();
            match next {
                Err(e) => {
                    return Err(e);
                },
                Ok(None) => {
                    return Ok(false);
                },
                Ok(Some(_)) => {},
            }
            if self.iter.entry.is_null() {
                // No children: the depth stays.
                return Ok(false);
            } else {
                self.depth = self.depth + 1;
                return Ok(true);
            }
        }
        let ghost s0 = self.iter.state();
        let ghost d0 = self.depth as int;
        loop
            invariant
                self.wf(),
                self.iter.ctx() == ctx,
                ctx == old(self).cursor().ctx(),
                d0 == old(self).depth(),
                d0 >= depth,
                s0 == old(self).cursor().state(),
                self.depth >= depth,
                tree_walk(s0, d0, depth as int, ctx) == tree_walk(self.iter.state(), self.depth as int, depth as int, ctx),
            decreases self.iter.state().rem.len(),
        {
            let ghost st = self.iter.state();
            proof {
                lemma_sibling_walk_advances(st, 0, ctx);
            }
            let ghost d = self.depth as int;
            let next = self.iter.next_sibling();
            match next {
                Err(e) => {
                    assert(tree_walk(st, d, depth as int, ctx) == Err::<Option<(bool, CursorState, int)>, ReadError>(e));
                    return Err(e);
                },
                Ok(None) => {
                    assert(tree_walk(st, d, depth as int, ctx) == Ok::<Option<(bool, CursorState, int)>, ReadError>(None));
                    return Ok(false);
                },
                Ok(Some(_)) => {},
            }
            if self.depth == depth {
                if self.iter.entry.is_null() {
                    // No more entries at the target depth.
                    self.depth = self.depth - 1;
                    return Ok(false);
                } else {
                    assert(tree_walk(st, d, depth as int, ctx) == Ok::<Option<(bool, CursorState, int)>, ReadError>(
                        Some((true, self.iter.state(), d)),
                    ));
                    return Ok(true);
                }
            }
            if self.iter.entry.is_null() {
                self.depth = self.depth - 1;
            }
        }
    }
}

/// The entries at one depth of a tree walk; each one it yields walks that
/// entry's children.
#[derive(Debug)]
pub struct DieTreeIterator<'a, 'b, 'data, E: Endian> {
    tree: &'a mut DieTree<'b, 'data, E>,
    depth: i128,
    done: bool,
}

impl<'a, 'b, 'data, E: Endian> DieTreeIterator<'a, 'b, 'data, E> {
    pub closed spec fn depth(&self) -> int {
        self.depth as int
    }

    pub closed spec fn done(&self) -> bool {
        self.done
    }

    pub closed spec fn tree(&self) -> DieTree<'b, 'data, E> {
        *self.tree
    }

    fn new(tree: &'a mut DieTree<'b, 'data, E>, depth: i128) -> (r: DieTreeIterator<'a, 'b, 'data, E>)
        ensures
            r.tree() == *old(tree),
            r.depth() == depth,
            !r.done(),
    {
        DieTreeIterator { tree, depth, done: false }
    }

    /// The entry the walk stands at.
    pub fn entry(&self) -> (r: &Die<'data>)
        ensures
            r@ == self.tree().cursor().state().entry,
    {
        &self.tree.iter.entry
    }

    /// Moves to the next entry at this depth and returns an iterator over its
    /// children; `None` when there is none.
    pub fn next<'me>(&'me mut self) -> (res: Result<Option<DieTreeIterator<'me, 'b, 'data, E>>, ReadError>)
        requires
            old(self).tree().wf(),
        ensures
            old(self).done() ==> res matches Ok(None),
            !old(self).done() ==> match tree_next(
                old(self).tree().cursor().state(),
                old(self).tree().depth(),
                old(self).depth(),
                old(self).tree().cursor().ctx(),
            ) {
                Ok(Some((true, st, d))) => res matches Ok(Some(child)) && child.depth() == old(self).depth() + 1
                    && child.tree().cursor().state() == st && !child.done(),
                Ok(_) => res matches Ok(None) && final(self).done(),
                Err(e) => res == Err::<Option<DieTreeIterator<'me, 'b, 'data, E>>, ReadError>(e),
            },
    {
        if self.done {
            return Ok(None);
        }
        let ghost t0 = *self.tree;
        let found = self.tree.next(self.depth)?;
        if found {
            proof {
                lemma_tree_walk_found(t0.cursor().state(), t0.depth(), self.depth as int, t0.cursor().ctx());
            }
            let depth = self.depth + 1;
            Ok(Some(DieTreeIterator::new(self.tree, depth)))
        } else {
            self.done = true;
            Ok(None)
        }
    }
}

/// The string a value names: an inline string, or the NUL-terminated string
/// at an offset in `debug_str`.
pub open spec fn attr_string(v: AttrValue, debug_str: Seq<u8>) -> Option<Seq<u8>> {
    match v {
        AttrValue::String(b) => Some(b),
        AttrValue::StringOffset(o) => if o < debug_str.len() {
            match string_decode(debug_str.skip(o as int)) {
                Ok((s, n)) => Some(s),
                Err(_) => None,
            }
        } else {
            None
        },
        _ => None,
    }
}

/// The section offset a value holds.
pub open spec fn attr_offset(v: AttrValue) -> Option<nat> {
    match v {
        AttrValue::Data4(x) => Some(x as nat),
        AttrValue::SecOffset(x) => if x <= usize::MAX {
            Some(x as nat)
        } else {
            None
        },
        _ => None,
    }
}

impl<'data> AttributeData<'data> {
    /// The string the value names: an inline string, or the NUL-terminated
    /// string at an offset in `.debug_str`.
    pub fn as_string(&self, debug_str: &'data [u8]) -> (r: Option<&'data [u8]>)
        ensures
            match self@ {
                AttrValue::String(b) => r matches Some(v) && v@ == b,
                AttrValue::StringOffset(o) => if o < debug_str@.len() {
                    match string_decode(debug_str@.skip(o as int)) {
                        Ok((v, n)) => r matches Some(x) && x@ == v,
                        Err(_) => r is None,
                    }
                } else {
                    r is None
                },
                _ => r is None,
            },
    {
        match *self {
            AttributeData::String(val) => Some(val),
            AttributeData::StringOffset(val) => {
                if val < debug_str.len() as u64 {
                    let mut r = slice_subrange(debug_str, val as usize, debug_str.len());
                    assert(r@ =~= debug_str@.skip(val as int));
                    match read_inline_string(&mut r) {
                        Ok(v) => Some(v),
                        Err(_) => None,
                    }
                } else {
                    None
                }
            },
            _ => None,
        }
    }

    /// The section offset the value holds, for the forms that hold one.
    pub fn as_offset(&self) -> (r: Option<usize>)
        ensures
            match self@ {
                AttrValue::Data4(v) => r == Some(v as usize),
                AttrValue::SecOffset(v) => if v <= usize::MAX {
                    r == Some(v as usize)
                } else {
                    r is None
                },
                _ => r is None,
            },
    {
        match *self {
            AttributeData::Data4(val) => Some(val as usize),
            AttributeData::SecOffset(val) => {
                if val <= usize::MAX as u64 {
                    Some(val as usize)
                } else {
                    None
                }
            },
            _ => None,
        }
    }
}

// ---------------------------------------------------------------------------
// Round trips

/// The values that their form writes in full: references, offsets and
/// addresses that fit in the bytes the form gives them, inline strings without
/// a zero byte, and blocks whose length fits in 64 bits.
pub open spec fn form_holds(v: AttrValue, enc: Encoding, form: DwForm) -> bool {
    match v {
        AttrValue::Address(x) => enc.address_size == 8 || x < 0x1_0000_0000,
        AttrValue::StringOffset(x) => enc.offset_size == 8 || x < 0x1_0000_0000,
        AttrValue::SecOffset(x) => enc.offset_size == 8 || x < 0x1_0000_0000,
        AttrValue::RefAddress(x) => (if enc.version == 2 { enc.address_size } else { enc.offset_size }) == 8
            || x < 0x1_0000_0000,
        AttrValue::Ref(x) => (form == DW_FORM_ref1 ==> x < 0x100) && (form == DW_FORM_ref2 ==> x < 0x1_0000)
            && (form == DW_FORM_ref4 ==> x < 0x1_0000_0000),
        AttrValue::String(b) => !has_nul(b),
        AttrValue::Block(b) => b.len() < 0x1_0000_0000_0000_0000,
        AttrValue::ExprLoc(b) => b.len() < 0x1_0000_0000_0000_0000,
        _ => true,
    }
}

pub proof fn lemma_fixed_round_trip(x: nat, n: nat, big: bool, rest: Seq<u8>)
    requires
        x < crate::endian::pow256(n),
    ensures
        fixed_decode(uint_bytes(x, n, big) + rest, n, big) == Ok::<(nat, nat), ReadError>((x, n)),
{
    crate::endian::lemma_uint_round_trip(x, n, big);
    let b = uint_bytes(x, n, big);
    assert((b + rest).take(n as int) =~= b);
    vstd::arithmetic::div_mod::lemma_small_mod(x, crate::endian::pow256(n));
}

proof fn lemma_sized_round_trip(x: u64, size: u8, big: bool, rest: Seq<u8>)
    requires
        size == 4 || size == 8,
        size == 8 || x < 0x1_0000_0000,
    ensures
        sized_decode(sized_encode(x, size, big)->Ok_0 + rest, size, big) == Ok::<(nat, nat), ReadError>(
            (x as nat, size as nat),
        ),
{
    crate::endian::lemma_pow256_values();
    lemma_fixed_round_trip(x as nat, size as nat, big, rest);
}

proof fn lemma_block_round_trip(b: Seq<u8>, n: nat, big: bool, rest: Seq<u8>)
    requires
        n == 1 || n == 2 || n == 4,
        block_encode(b, n, big) is Ok,
    ensures
        block_after(block_encode(b, n, big)->Ok_0 + rest, prefix_decode(block_encode(b, n, big)->Ok_0 + rest, n as u8, big))
            == Ok::<(Seq<u8>, nat), ReadError>((b, n + b.len())),
{
    crate::endian::lemma_pow256_values();
    let p = uint_bytes(b.len(), n, big);
    let s = block_encode(b, n, big)->Ok_0 + rest;
    assert(s =~= p + (b + rest));
    lemma_fixed_round_trip(b.len(), n, big, b + rest);
    crate::endian::lemma_uint_round_trip(b.len(), n, big);
    if n == 1 {
        reveal_with_fuel(crate::endian::le_bytes, 2);
        reveal_with_fuel(crate::endian::be_bytes, 2);
        assert(p.len() == 1);
        assert(s[0] == p[0]);
        reveal_with_fuel(crate::endian::le_value, 2);
        reveal_with_fuel(crate::endian::be_value, 2);
        assert(p.take(1) =~= p);
    }
    assert(s.subrange(n as int, (n + b.len()) as int) =~= b);
}

proof fn lemma_counted_round_trip(b: Seq<u8>, rest: Seq<u8>)
    requires
        b.len() < 0x1_0000_0000_0000_0000,
    ensures
        block_after(uleb_bytes(b.len()) + b + rest, uleb_decode(uleb_bytes(b.len()) + b + rest)) == Ok::<
            (Seq<u8>, nat),
            ReadError,
        >((b, uleb_bytes(b.len()).len() + b.len())),
{
    let p = uleb_bytes(b.len());
    let s = p + b + rest;
    assert(s =~= p + (b + rest));
    crate::leb128::lemma_u64_round_trip(b.len() as u64, b + rest);
    assert(s.subrange(p.len() as int, (p.len() + b.len()) as int) =~= b);
}

proof fn lemma_string_round_trip(b: Seq<u8>, rest: Seq<u8>)
    requires
        !has_nul(b),
    ensures
        string_decode(b.push(0u8) + rest) == Ok::<(Seq<u8>, nat), ReadError>((b, b.len() + 1)),
{
    let s = b.push(0u8) + rest;
    assert(s[b.len() as int] == 0);
    assert forall|j: int| 0 <= j < b.len() implies s[j] != 0 by {
        assert(s[j] == b[j]);
    }
    assert(first_nul(s, b.len() as int));
    let p = choose|p: int| first_nul(s, p);
    if p < b.len() {
        assert(s[p] == b[p]);
    }
    assert(s.take(b.len() as int) =~= b);
}

/// Each value that its form writes in full reads back as itself, and takes
/// exactly the bytes written, whatever follows them.
pub proof fn lemma_form_round_trip(v: AttrValue, enc: Encoding, form: DwForm, rest: Seq<u8>)
    requires
        form_encode(v, enc, form) is Ok,
        form_holds(v, enc, form),
    ensures
        form_decode(form_encode(v, enc, form)->Ok_0 + rest, enc, form) == Ok::<(AttrValue, nat), ReadError>(
            (v, form_encode(v, enc, form)->Ok_0.len()),
        ),
{
    crate::endian::lemma_pow256_values();
    let b = form_encode(v, enc, form)->Ok_0;
    let s = b + rest;
    match v {
        AttrValue::Address(x) => {
            lemma_sized_round_trip(x, enc.address_size, enc.big, rest);
            crate::endian::lemma_uint_round_trip(x as nat, enc.address_size as nat, enc.big);
        },
        AttrValue::Block(bl) => {
            if form == DW_FORM_block {
                assert(s =~= uleb_bytes(bl.len()) + bl + rest);
                lemma_counted_round_trip(bl, rest);
            } else if form == DW_FORM_block1 {
                lemma_block_round_trip(bl, 1, enc.big, rest);
                crate::endian::lemma_uint_round_trip(bl.len(), 1, enc.big);
            } else if form == DW_FORM_block2 {
                lemma_block_round_trip(bl, 2, enc.big, rest);
                crate::endian::lemma_uint_round_trip(bl.len(), 2, enc.big);
            } else {
                lemma_block_round_trip(bl, 4, enc.big, rest);
                crate::endian::lemma_uint_round_trip(bl.len(), 4, enc.big);
            }
        },
        AttrValue::Data1(x) => {},
        AttrValue::Data2(x) => {
            lemma_fixed_round_trip(x as nat, 2, enc.big, rest);
            crate::endian::lemma_uint_round_trip(x as nat, 2, enc.big);
        },
        AttrValue::Data4(x) => {
            lemma_fixed_round_trip(x as nat, 4, enc.big, rest);
            crate::endian::lemma_uint_round_trip(x as nat, 4, enc.big);
        },
        AttrValue::Data8(x) => {
            lemma_fixed_round_trip(x as nat, 8, enc.big, rest);
            crate::endian::lemma_uint_round_trip(x as nat, 8, enc.big);
        },
        AttrValue::UData(x) => {
            crate::leb128::lemma_u64_round_trip(x, rest);
        },
        AttrValue::SData(x) => {
            crate::leb128::lemma_i64_round_trip(x, rest);
        },
        AttrValue::Flag(x) => {},
        AttrValue::String(bs) => {
            lemma_string_round_trip(bs, rest);
        },
        AttrValue::StringOffset(x) => {
            lemma_sized_round_trip(x, enc.offset_size, enc.big, rest);
            crate::endian::lemma_uint_round_trip(x as nat, enc.offset_size as nat, enc.big);
        },
        AttrValue::Ref(x) => {
            if form == DW_FORM_ref_udata {
                crate::leb128::lemma_u64_round_trip(x, rest);
            } else {
                let n: nat = if form == DW_FORM_ref1 {
                    1
                } else if form == DW_FORM_ref2 {
                    2
                } else if form == DW_FORM_ref4 {
                    4
                } else {
                    8
                };
                lemma_fixed_round_trip(x as nat, n, enc.big, rest);
                crate::endian::lemma_uint_round_trip(x as nat, n, enc.big);
                if n == 1 {
                    reveal_with_fuel(crate::endian::le_bytes, 2);
                    reveal_with_fuel(crate::endian::be_bytes, 2);
                    reveal_with_fuel(crate::endian::le_value, 2);
                    reveal_with_fuel(crate::endian::be_value, 2);
                    assert(b.len() == 1);
                }
            }
        },
        AttrValue::RefAddress(x) => {
            let size = if enc.version == 2 { enc.address_size } else { enc.offset_size };
            lemma_sized_round_trip(x, size, enc.big, rest);
            crate::endian::lemma_uint_round_trip(x as nat, size as nat, enc.big);
        },
        AttrValue::RefSig(x) => {
            lemma_fixed_round_trip(x as nat, 8, enc.big, rest);
            crate::endian::lemma_uint_round_trip(x as nat, 8, enc.big);
        },
        AttrValue::SecOffset(x) => {
            lemma_sized_round_trip(x, enc.offset_size, enc.big, rest);
            crate::endian::lemma_uint_round_trip(x as nat, enc.offset_size as nat, enc.big);
        },
        AttrValue::ExprLoc(bl) => {
            assert(s =~= uleb_bytes(bl.len()) + bl + rest);
            lemma_counted_round_trip(bl, rest);
        },
        AttrValue::Null => {},
    }
}

/// The indirect encoding of a value is its form's code as unsigned LEB128
/// followed by the direct encoding, and it reads back as the value.
pub proof fn lemma_form_round_trip_indirect(v: AttrValue, enc: Encoding, form: DwForm, rest: Seq<u8>)
    requires
        form_encode(v, enc, form) is Ok,
        form_holds(v, enc, form),
    ensures
        value_encode(v, enc, form, true) == Ok::<Seq<u8>, WriteError>(uleb_bytes(form as nat) + form_encode(v, enc, form)->Ok_0),
        form_decode(value_encode(v, enc, form, true)->Ok_0 + rest, enc, DW_FORM_indirect) == Ok::<(AttrValue, nat), ReadError>(
            (v, value_encode(v, enc, form, true)->Ok_0.len()),
        ),
{
    let b = form_encode(v, enc, form)->Ok_0;
    let p = uleb_bytes(form as nat);
    let s = p + b + rest;
    assert(s =~= p + (b + rest));
    crate::leb128::lemma_u16_round_trip(form, b + rest);
    assert(s.skip(p.len() as int) =~= b + rest);
    lemma_form_round_trip(v, enc, form, rest);
}

/// Skipping from an entry with children whose sibling attribute points ahead
/// within the bytes consumes exactly the bytes from the cursor up to the
/// sibling's offset: the result is what one step reads there.
pub proof fn lemma_sibling_skip(st: CursorState, ctx: CursorCtx)
    requires
        st.entry.children,
        sibling_target(st, ctx) is Some,
    ensures
        ({
            let t = sibling_target(st, ctx)->Some_0;
            &&& st.pos < t <= st.pos + st.rem.len()
            &&& sibling_walk(st, 0, ctx) == cursor_next(
                CursorState { rem: st.rem.skip(t - st.pos), pos: t, entry: null_die(0) },
                ctx,
            )
        }),
{
}

/// The attribute values that their forms write in full.
pub open spec fn attributes_hold(attrs: Seq<(DwAt, AttrValue)>, schema: Seq<AbbrevAttribute>, enc: Encoding) -> bool {
    forall|i: int| 0 <= i < attrs.len() && i < schema.len() ==> form_holds(#[trigger] attrs[i].1, enc, schema[i].form)
}

proof fn lemma_attributes_round_trip(attrs: Seq<(DwAt, AttrValue)>, schema: Seq<AbbrevAttribute>, enc: Encoding, rest: Seq<u8>)
    requires
        attrs.len() == schema.len(),
        attributes_encode(attrs, schema, enc) is Ok,
        attributes_hold(attrs, schema, enc),
    ensures
        attributes_decode(attributes_encode(attrs, schema, enc)->Ok_0 + rest, enc, schema) == Ok::<
            (Seq<(DwAt, AttrValue)>, nat),
            ReadError,
        >((attrs, attributes_encode(attrs, schema, enc)->Ok_0.len())),
    decreases attrs.len(),
{
    if attrs.len() == 0 {
        assert(attrs =~= seq![]);
    } else {
        let b = form_encode(attrs[0].1, enc, schema[0].form)->Ok_0;
        let t = attributes_encode(attrs.drop_first(), schema.drop_first(), enc)->Ok_0;
        let s = attributes_encode(attrs, schema, enc)->Ok_0 + rest;
        assert(s =~= b + (t + rest));
        assert(form_holds(attrs[0].1, enc, schema[0].form));
        lemma_form_round_trip(attrs[0].1, enc, schema[0].form, t + rest);
        assert(s.skip(b.len() as int) =~= t + rest);
        assert forall|i: int| 0 <= i < attrs.drop_first().len() && i < schema.drop_first().len() implies form_holds(
            #[trigger] attrs.drop_first()[i].1,
            enc,
            schema.drop_first()[i].form,
        ) by {
            assert(attrs.drop_first()[i] == attrs[i + 1]);
            assert(form_holds(attrs[i + 1].1, enc, schema[i + 1].form));
        }
        lemma_attributes_round_trip(attrs.drop_first(), schema.drop_first(), enc, rest);
        assert(seq![(schema[0].at, attrs[0].1)] + attrs.drop_first() =~= attrs);
    }
}

/// An entry that reads back as itself: a null entry as `Die::null` makes it,
/// or an entry whose tag is its abbreviation's and whose values their forms
/// write in full.
pub open spec fn die_holds(d: DieSpec, enc: Encoding, abbrevs: Map<u64, AbbrevSpec>) -> bool {
    if d.code == 0 {
        d == null_die(d.offset)
    } else {
        abbrevs.contains_key(d.code) && d.tag == abbrevs[d.code].tag && attributes_hold(
            d.attributes,
            abbrevs[d.code].attributes,
            enc,
        )
    }
}

/// An entry written under its abbreviation reads back as itself and takes the
/// written bytes, whatever follows them.
pub proof fn lemma_die_round_trip(d: DieSpec, enc: Encoding, abbrevs: Map<u64, AbbrevSpec>, rest: Seq<u8>)
    requires
        die_encode(d, enc, abbrevs) is Ok,
        die_holds(d, enc, abbrevs),
    ensures
        die_decode(die_encode(d, enc, abbrevs)->Ok_0 + rest, d.offset, enc, abbrevs) == Ok::<(DieSpec, nat), ReadError>(
            (d, die_encode(d, enc, abbrevs)->Ok_0.len()),
        ),
{
    let b = die_encode(d, enc, abbrevs)->Ok_0;
    if d.code == 0 {
        crate::leb128::lemma_u64_round_trip(0, rest);
    } else {
        let a = abbrevs[d.code];
        let p = uleb_bytes(d.code as nat);
        let t = attributes_encode(d.attributes, a.attributes, enc)->Ok_0;
        let s = b + rest;
        assert(s =~= p + (t + rest));
        crate::leb128::lemma_u64_round_trip(d.code, t + rest);
        assert(s.skip(p.len() as int) =~= t + rest);
        lemma_attributes_round_trip(d.attributes, a.attributes, enc, rest);
    }
}

/// The entries that `k` steps of a cursor read, as far as they go without
/// error.
pub open spec fn cursor_entries(st: CursorState, ctx: CursorCtx, k: nat) -> Seq<DieSpec>
    decreases k,
{
    if k == 0 {
        seq![]
    } else {
        match cursor_next(st, ctx) {
            Ok(Some(st2)) => seq![st2.entry] + cursor_entries(st2, ctx, (k - 1) as nat),
            _ => seq![],
        }
    }
}

/// The bytes of entries written one after another.
pub open spec fn dies_bytes(ds: Seq<DieSpec>, enc: Encoding, abbrevs: Map<u64, AbbrevSpec>) -> Seq<u8>
    decreases ds.len(),
{
    if ds.len() == 0 {
        seq![]
    } else {
        die_encode(ds[0], enc, abbrevs)->Ok_0 + dies_bytes(ds.drop_first(), enc, abbrevs)
    }
}

/// Each entry is writable and reads back as itself, and lies where the ones
/// before it end, the first at `pos`.
pub open spec fn dies_laid_out(ds: Seq<DieSpec>, pos: int, enc: Encoding, abbrevs: Map<u64, AbbrevSpec>) -> bool
    decreases ds.len(),
{
    ds.len() == 0 || {
        &&& die_encode(ds[0], enc, abbrevs) is Ok
        &&& die_holds(ds[0], enc, abbrevs)
        &&& ds[0].offset == pos
        &&& dies_laid_out(ds.drop_first(), pos + die_encode(ds[0], enc, abbrevs)->Ok_0.len(), enc, abbrevs)
    }
}

/// A cursor over entries written one after another reads them back in the
/// same order, each at its own offset.
pub proof fn lemma_cursor_order(ds: Seq<DieSpec>, st: CursorState, ctx: CursorCtx)
    requires
        dies_laid_out(ds, st.pos, ctx.enc, ctx.abbrevs),
        st.rem == dies_bytes(ds, ctx.enc, ctx.abbrevs),
        0 <= st.pos,
        st.pos + st.rem.len() <= usize::MAX,
    ensures
        cursor_entries(st, ctx, ds.len()) == ds,
    decreases ds.len(),
{
    if ds.len() == 0 {
        assert(ds =~= seq![]);
    } else {
        let d = ds[0];
        let b = die_encode(d, ctx.enc, ctx.abbrevs)->Ok_0;
        let rest = dies_bytes(ds.drop_first(), ctx.enc, ctx.abbrevs);
        lemma_die_round_trip(d, ctx.enc, ctx.abbrevs, rest);
        lemma_die_len(st.rem, st.pos as usize, ctx.enc, ctx.abbrevs);
        let st2 = CursorState { rem: st.rem.skip(b.len() as int), pos: st.pos + b.len(), entry: d };
        assert(st.rem.skip(b.len() as int) =~= rest);
        assert(cursor_next(st, ctx) == Ok::<Option<CursorState>, ReadError>(Some(st2)));
        lemma_cursor_order(ds.drop_first(), st2, ctx);
        assert(seq![d] + ds.drop_first() =~= ds);
    }
}

/// Appends the bytes of `b`.
pub fn write_bytes(w: &mut Vec<u8>, b: &[u8])
    ensures
        final(w)@ == old(w)@ + b@,
{
    let mut i: usize = 0;
    while i < b.len()
        invariant
            i <= b@.len(),
            w@ == old(w)@ + b@.take(i as int),
        decreases b.len() - i,
    {
        w.push(b[i]);
        i = i + 1;
        assert(w@ =~= old(w)@ + b@.take(i as int));
    }
    assert(b@.take(i as int) =~= b@);
}

} // verus!
