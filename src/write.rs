use vstd::prelude::*;

use crate::endian::{uint_bytes, write_uint, Endian};

verus! {

/// Why a write failed.
#[derive(Debug, Clone, Copy, PartialEq, Eq, Structural)]
pub enum WriteError {
    /// The sink failed.
    Io,
    /// The value is inconsistent with the schema it is written under.
    Invalid,
    /// The value cannot be represented, e.g. an offset size other than 4 or 8.
    Unsupported,
}

/// Appends one byte.
pub fn write_u8(w: &mut Vec<u8>, val: u8)
    ensures
        final(w)@ == old(w)@.push(val),
{
    w.push(val);
}

/// The outcome of writing `val` as a 4- or 8-byte integer whose width is `size`.
pub open spec fn sized_write(
    old: Seq<u8>,
    new: Seq<u8>,
    size: u8,
    big: bool,
    val: u64,
    res: Result<(), WriteError>,
) -> bool {
    if size == 4 || size == 8 {
        res is Ok && new == old + uint_bytes(val as nat, size as nat, big)
    } else {
        res == Err::<(), WriteError>(WriteError::Unsupported) && new == old
    }
}

fn write_sized<E: Endian>(w: &mut Vec<u8>, endian: E, size: u8, val: u64) -> (res: Result<(), WriteError>)
    ensures
        sized_write(old(w)@, final(w)@, size, endian.spec_big(), val, res),
{
    if size == 4 || size == 8 {
        write_uint(w, val, size as usize, endian.is_big());
        Ok(())
    } else {
        Err(WriteError::Unsupported)
    }
}

/// Appends a section offset of `offset_size` bytes (4 or 8); a 4-byte offset
/// keeps the low 32 bits of `val`.
pub fn write_offset<E: Endian>(w: &mut Vec<u8>, endian: E, offset_size: u8, val: u64) -> (res: Result<(), WriteError>)
    ensures
        sized_write(old(w)@, final(w)@, offset_size, endian.spec_big(), val, res),
{
    write_sized(w, endian, offset_size, val)
}

/// Appends a target address of `address_size` bytes (4 or 8); a 4-byte
/// address keeps the low 32 bits of `val`.
pub fn write_address<E: Endian>(w: &mut Vec<u8>, endian: E, address_size: u8, val: u64) -> (res: Result<(), WriteError>)
    ensures
        sized_write(old(w)@, final(w)@, address_size, endian.spec_big(), val, res),
{
    write_sized(w, endian, address_size, val)
}

} // verus!
