use vstd::prelude::*;
use vstd::slice::slice_subrange;

use crate::endian::{fixed_read, nat_of_u64, uint_value, Endian};

verus! {

/// Why a read failed.
#[derive(Debug, Clone, Copy, PartialEq, Eq, Structural)]
pub enum ReadError {
    /// The underlying source failed.
    Io,
    /// The input ended before the item did.
    Eof,
    /// The bytes break a structural rule.
    Invalid,
    /// The bytes are well formed but outside what is implemented.
    Unsupported,
    /// A number does not fit in its target type.
    Overflow,
}

/// Consumes one byte.
pub fn read_u8(r: &mut &[u8]) -> (res: Result<u8, ReadError>)
    ensures
        old(r)@.len() == 0 ==> res == Err::<u8, ReadError>(ReadError::Eof) && final(r)@ == old(r)@,
        old(r)@.len() > 0 ==> res == Ok::<u8, ReadError>(old(r)@[0]) && final(r)@
            == old(r)@.drop_first(),
{
    if r.len() < 1 {
        return Err(ReadError::Eof);
    }
    let byte = r[0];
    *r = slice_subrange(*r, 1, r.len());
    Ok(byte)
}

/// Consumes one byte, taken as a two's complement number.
pub fn read_i8(r: &mut &[u8]) -> (res: Result<i8, ReadError>)
    ensures
        old(r)@.len() == 0 ==> res == Err::<i8, ReadError>(ReadError::Eof) && final(r)@ == old(r)@,
        old(r)@.len() > 0 ==> res == Ok::<i8, ReadError>(
            if old(r)@[0] >= 128 { (old(r)@[0] - 256) as i8 } else { old(r)@[0] as i8 },
        ) && final(r)@ == old(r)@.drop_first(),
{
    let byte = read_u8(r)?;
    if byte >= 128 {
        Ok((byte as i16 - 256) as i8)
    } else {
        Ok(byte as i8)
    }
}

/// Consumes the next `len` bytes and returns them.
pub fn read_block<'a>(r: &mut &'a [u8], len: usize) -> (res: Result<&'a [u8], ReadError>)
    ensures
        len > old(r)@.len() ==> res == Err::<&'a [u8], ReadError>(ReadError::Invalid) && final(r)@
            == old(r)@,
        len <= old(r)@.len() ==> res is Ok && res->Ok_0@ == old(r)@.take(len as int) && final(r)@
            == old(r)@.skip(len as int),
{
    let b: &'a [u8] = *r;
    if len > b.len() {
        return Err(ReadError::Invalid);
    }
    let val = slice_subrange(b, 0, len);
    *r = slice_subrange(b, len, b.len());
    assert(val@ =~= b@.take(len as int));
    assert(r@ =~= b@.skip(len as int));
    Ok(val)
}

/// Whether `s` holds a zero byte.
pub open spec fn has_nul(s: Seq<u8>) -> bool {
    exists|i: int| 0 <= i < s.len() && s[i] == 0
}

/// `n` is the index of the first zero byte of `s`.
pub open spec fn first_nul(s: Seq<u8>, n: int) -> bool {
    0 <= n < s.len() && s[n] == 0 && forall|j: int| 0 <= j < n ==> s[j] != 0
}

/// A byte string that holds a zero byte has a first one.
pub proof fn lemma_first_nul(s: Seq<u8>)
    requires
        has_nul(s),
    ensures
        exists|p: int| first_nul(s, p),
    decreases s.len(),
{
    let i = choose|i: int| 0 <= i < s.len() && s[i] == 0;
    let t = s.take(i);
    if has_nul(t) {
        lemma_first_nul(t);
        let p = choose|p: int| first_nul(t, p);
        assert forall|j: int| 0 <= j < p implies s[j] != 0 by {
            assert(t[j] == s[j]);
        }
        assert(t[p] == s[p]);
        assert(first_nul(s, p));
    } else {
        assert forall|j: int| 0 <= j < i implies s[j] != 0 by {
            assert(t[j] == s[j]);
        }
        assert(first_nul(s, i));
    }
}

/// Consumes a NUL-terminated string and returns it without its terminator.
pub fn read_string<'a>(r: &mut &'a [u8]) -> (res: Result<&'a [u8], ReadError>)
    ensures
        !has_nul(old(r)@) ==> res == Err::<&'a [u8], ReadError>(ReadError::Invalid) && final(r)@
            == old(r)@,
        has_nul(old(r)@) ==> res is Ok && first_nul(old(r)@, res->Ok_0@.len() as int)
            && res->Ok_0@ == old(r)@.take(res->Ok_0@.len() as int) && final(r)@ == old(r)@.skip(
            res->Ok_0@.len() as int + 1,
        ),
{
    let b: &'a [u8] = *r;
    let mut i: usize = 0;
    while i < b.len()
        invariant
            i <= b@.len(),
            forall|j: int| 0 <= j < i ==> b@[j] != 0,
            *r == b,
            b@ == old(r)@,
        decreases b.len() - i,
    {
        if b[i] == 0 {
            let val = slice_subrange(b, 0, i);
            *r = slice_subrange(b, i + 1, b.len());
            assert(val@ =~= b@.take(i as int));
            assert(r@ =~= b@.skip(i + 1));
            return Ok(val);
        }
        i = i + 1;
    }
    Err(ReadError::Invalid)
}

/// The outcome of reading a 4- or 8-byte integer whose width is `size`.
pub open spec fn sized_read(
    old: Seq<u8>,
    new: Seq<u8>,
    size: u8,
    big: bool,
    res: Result<u64, ReadError>,
) -> bool {
    if size == 4 || size == 8 {
        fixed_read(old, new, size as nat, big, nat_of_u64(res))
    } else {
        res == Err::<u64, ReadError>(ReadError::Unsupported) && new == old
    }
}

fn read_sized<E: Endian>(r: &mut &[u8], endian: E, size: u8) -> (res: Result<u64, ReadError>)
    ensures
        sized_read(old(r)@, final(r)@, size, endian.spec_big(), res),
{
    match size {
        4 => {
            let v = endian.read_u32(r);
            match v {
                Ok(v) => Ok(v as u64),
                Err(e) => Err(e),
            }
        },
        8 => endian.read_u64(r),
        _ => Err(ReadError::Unsupported),
    }
}

/// Reads a section offset of `offset_size` bytes (4 or 8).
pub fn read_offset<E: Endian>(r: &mut &[u8], endian: E, offset_size: u8) -> (res: Result<
    u64,
    ReadError,
>)
    ensures
        sized_read(old(r)@, final(r)@, offset_size, endian.spec_big(), res),
{
    read_sized(r, endian, offset_size)
}

/// Reads a target address of `address_size` bytes (4 or 8).
pub fn read_address<E: Endian>(r: &mut &[u8], endian: E, address_size: u8) -> (res: Result<
    u64,
    ReadError,
>)
    ensures
        sized_read(old(r)@, final(r)@, address_size, endian.spec_big(), res),
{
    read_sized(r, endian, address_size)
}

/// The initial length at the start of `s`: the offset size it selects, the
/// length it declares, and the number of bytes it takes.
pub open spec fn initial_length(s: Seq<u8>, big: bool) -> Result<(u8, nat, nat), ReadError> {
    if s.len() < 4 {
        Err(ReadError::Eof)
    } else {
        let v = uint_value(s.take(4), big);
        if v == 0xffff_ffff {
            if s.len() < 12 {
                Err(ReadError::Eof)
            } else {
                let len = uint_value(s.subrange(4, 12), big);
                if len > s.len() - 12 {
                    Err(ReadError::Invalid)
                } else {
                    Ok((8u8, len, 12nat))
                }
            }
        } else if v >= 0xffff_fff0 {
            Err(ReadError::Unsupported)
        } else if v > s.len() - 4 {
            Err(ReadError::Invalid)
        } else {
            Ok((4u8, v, 4nat))
        }
    }
}

/// Reads a unit's initial length: 4 bytes, or 0xffffffff and then 8 bytes.
/// The declared length must fit in what follows. On error nothing is consumed.
pub fn read_initial_length<E: Endian>(r: &mut &[u8], endian: E) -> (res: Result<
    (u8, usize),
    ReadError,
>)
    ensures
        match initial_length(old(r)@, endian.spec_big()) {
            Ok((offset_size, len, header)) => res == Ok::<(u8, usize), ReadError>(
                (offset_size, len as usize),
            ) && final(r)@ == old(r)@.skip(header as int),
            Err(e) => res == Err::<(u8, usize), ReadError>(e) && final(r)@ == old(r)@,
        },
{
    let saved: &[u8] = *r;
    let first = match endian.read_u32(r) {
        Ok(v) => v,
        Err(e) => {
            return Err(e);
        },
    };
    if first == 0xffff_ffff {
        let after: &[u8] = *r;
        let len = match endian.read_u64(r) {
            Ok(v) => v,
            Err(e) => {
                *r = saved;
                return Err(e);
            },
        };
        proof {
            assert(after@.take(8) =~= saved@.subrange(4, 12));
            assert(r@ =~= saved@.skip(12));
        }
        if len > r.len() as u64 {
            *r = saved;
            return Err(ReadError::Invalid);
        }
        Ok((8, len as usize))
    } else if first >= 0xffff_fff0 {
        *r = saved;
        Err(ReadError::Unsupported)
    } else {
        if first as u64 > r.len() as u64 {
            *r = saved;
            return Err(ReadError::Invalid);
        }
        Ok((4, first as usize))
    }
}

} // verus!
