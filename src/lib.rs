//! Reading and writing the core DWARF sections (versions 2 to 4): abbreviation
//! tables, compilation and type units, their entries and attributes, and line
//! programs.

use vstd::prelude::*;

pub mod abbrev;
pub mod constant;
pub mod die;
pub mod endian;
pub mod leb128;
pub mod line;
pub mod read;
pub mod unit;
pub mod write;

pub use endian::{AnyEndian, BigEndian, Endian, LittleEndian};
pub use read::ReadError;
pub use write::WriteError;

verus! {

/// The bytes of the DWARF sections of an object file; a section that is
/// missing is empty.
#[derive(Debug)]
pub struct Sections<E: Endian> {
    pub endian: E,
    pub debug_abbrev: Vec<u8>,
    pub debug_info: Vec<u8>,
    pub debug_line: Vec<u8>,
    pub debug_str: Vec<u8>,
    pub debug_types: Vec<u8>,
}

impl<E: Endian> Sections<E> {
    /// The compilation units of `.debug_info`.
    pub fn compilation_units(&self) -> (r: unit::CompilationUnitIterator<'_, E>)
        ensures
            r.wf(),
            r.rest() == self.debug_info@,
            r.pos() == 0,
            r.big() == self.endian.spec_big(),
    {
        unit::CompilationUnitIterator::new(self.endian, self.debug_info.as_slice())
    }

    /// The type units of `.debug_types`.
    pub fn type_units(&self) -> (r: unit::TypeUnitIterator<'_, E>)
        ensures
            r.wf(),
            r.rest() == self.debug_types@,
            r.pos() == 0,
            r.big() == self.endian.spec_big(),
    {
        unit::TypeUnitIterator::new(self.endian, self.debug_types.as_slice())
    }

    /// The abbreviation table of a unit, out of `.debug_abbrev`.
    pub fn abbrev<'a>(&self, unit: &unit::UnitCommon<'a, E>) -> (res: Result<abbrev::AbbrevHash, ReadError>)
        ensures
            unit.abbrev_offset >= self.debug_abbrev@.len() ==> res == Err::<abbrev::AbbrevHash, ReadError>(
                ReadError::Invalid,
            ),
            unit.abbrev_offset < self.debug_abbrev@.len() ==> match abbrev::abbrev_table_decode(
                self.debug_abbrev@.skip(unit.abbrev_offset as int),
            ) {
                Ok((m, n)) => res is Ok && res->Ok_0@ == m,
                Err(e) => res == Err::<abbrev::AbbrevHash, ReadError>(e),
            },
    {
        unit.abbrev(self.debug_abbrev.as_slice())
    }
}

} // verus!
