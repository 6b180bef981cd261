use vstd::prelude::*;
use vstd::slice::slice_subrange;
use vstd::wrapping::u64_specs;

use crate::constant::{
    DW_LNE_define_file, DW_LNE_end_sequence, DW_LNE_set_address, DW_LNE_set_discriminator,
    DW_LNS_advance_line, DW_LNS_advance_pc, DW_LNS_const_add_pc, DW_LNS_copy, DW_LNS_extended,
    DW_LNS_fixed_advance_pc, DW_LNS_negate_stmt, DW_LNS_set_basic_block, DW_LNS_set_column,
    DW_LNS_set_epilogue_begin, DW_LNS_set_file, DW_LNS_set_isa, DW_LNS_set_prologue_end,
};
use crate::die::{fixed_decode, sized_decode, string_decode};
use crate::endian::Endian;
use crate::leb128;
use crate::leb128::{sleb_decode, uleb_decode};
use crate::read::{
    first_nul, has_nul, initial_length, read_address, read_block, read_i8, read_initial_length,
    read_offset, read_string, read_u8, ReadError,
};

verus! {

/// An entry of a line program's file table.
#[derive(Debug, Clone, Copy, PartialEq, Eq)]
pub struct FileEntry<'data> {
    pub path: &'data [u8],
    /// Index into the include directories.
    pub directory: u64,
    pub timestamp: u64,
    pub length: u64,
}

/// What a file entry holds.
pub struct FileSpec {
    pub path: Seq<u8>,
    pub directory: u64,
    pub timestamp: u64,
    pub length: u64,
}

impl<'data> View for FileEntry<'data> {
    type V = FileSpec;

    open spec fn view(&self) -> FileSpec {
        FileSpec { path: self.path@, directory: self.directory, timestamp: self.timestamp, length: self.length }
    }
}

impl<'data> Default for FileEntry<'data> {
    fn default() -> (r: Self)
        ensures
            r.path@.len() == 0 && r.directory == 0 && r.timestamp == 0 && r.length == 0,
    {
        FileEntry { path: &[], directory: 0, timestamp: 0, length: 0 }
    }
}

/// A file entry at the start of `s`: a NUL-terminated path, then the
/// directory index, time stamp and length as unsigned LEB128.
pub open spec fn file_entry_decode(s: Seq<u8>) -> Result<(FileSpec, nat), ReadError> {
    match string_decode(s) {
        Ok((path, n1)) => match uleb_decode(s.skip(n1 as int)) {
            Ok((directory, n2)) => match uleb_decode(s.skip((n1 + n2) as int)) {
                Ok((timestamp, n3)) => match uleb_decode(s.skip((n1 + n2 + n3) as int)) {
                    Ok((length, n4)) => Ok(
                        (
                            FileSpec {
                                path,
                                directory: directory as u64,
                                timestamp: timestamp as u64,
                                length: length as u64,
                            },
                            n1 + n2 + n3 + n4,
                        ),
                    ),
                    Err(e) => Err(e),
                },
                Err(e) => Err(e),
            },
            Err(e) => Err(e),
        },
        Err(e) => Err(e),
    }
}

pub proof fn lemma_string_len(s: Seq<u8>)
    ensures
        string_decode(s) matches Ok((v, n)) ==> 1 <= n <= s.len(),
{
    if has_nul(s) {
        crate::read::lemma_first_nul(s);
    }
}

pub proof fn lemma_file_entry_len(s: Seq<u8>)
    ensures
        file_entry_decode(s) matches Ok((v, n)) ==> 1 <= n <= s.len(),
{
    lemma_string_len(s);
    if let Ok((p, n1)) = string_decode(s) {
        crate::leb128::lemma_uleb_len(s.skip(n1 as int), 0);
        if let Ok((d, n2)) = uleb_decode(s.skip(n1 as int)) {
            crate::leb128::lemma_uleb_len(s.skip((n1 + n2) as int), 0);
            if let Ok((t, n3)) = uleb_decode(s.skip((n1 + n2) as int)) {
                crate::leb128::lemma_uleb_len(s.skip((n1 + n2 + n3) as int), 0);
            }
        }
    }
}

impl<'data> FileEntry<'data> {
    pub fn read(r: &mut &'data [u8]) -> (res: Result<FileEntry<'data>, ReadError>)
        ensures
            match file_entry_decode(old(r)@) {
                Ok((f, n)) => res matches Ok(e) && e@ == f && final(r)@ == old(r)@.skip(n as int),
                Err(e) => res == Err::<FileEntry<'data>, ReadError>(e),
            },
    {
        let ghost s0 = r@;
        proof {
            lemma_string_len(s0);
            if has_nul(s0) {
                crate::read::lemma_first_nul(s0);
            }
        }
        let path = read_string(r)?;
        proof {
            let p = choose|p: int| first_nul(s0, p);
            let q = path@.len() as int;
            if p < q {
                assert(s0[p] == 0);
            } else if q < p {
                assert(s0[q] == 0);
            }
        }
        let ghost s1 = r@;
        let ghost n1 = string_decode(s0)->Ok_0.1;
        proof {
            crate::leb128::lemma_uleb_len(s1, 0);
        }
        let directory = leb128::read_u64(r)?;
        let ghost s2 = r@;
        let ghost n2 = uleb_decode(s1)->Ok_0.1;
        assert(s2 =~= s0.skip((n1 + n2) as int));
        proof {
            crate::leb128::lemma_uleb_len(s2, 0);
        }
        let timestamp = leb128::read_u64(r)?;
        let ghost s3 = r@;
        let ghost n3 = uleb_decode(s2)->Ok_0.1;
        assert(s3 =~= s0.skip((n1 + n2 + n3) as int));
        proof {
            crate::leb128::lemma_uleb_len(s3, 0);
        }
        let length = leb128::read_u64(r)?;
        let ghost n4 = uleb_decode(s3)->Ok_0.1;
        assert(r@ =~= s0.skip((n1 + n2 + n3 + n4) as int));
        Ok(FileEntry { path, directory, timestamp, length })
    }
}

/// One row of the line table: the state of the line-number machine when it
/// emits.
#[derive(Debug, Clone, Copy, PartialEq, Eq, Structural)]
pub struct Line {
    pub address: u64,
    /// The index of an operation within a VLIW instruction.
    pub operation: u64,
    pub file: u64,
    pub line: u64,
    pub column: u64,
    pub statement: bool,
    pub basic_block: bool,
    pub sequence_end: bool,
    pub prologue_end: bool,
    pub epilogue_begin: bool,
    pub isa: u64,
    pub discriminator: u64,
}

/// The state of the machine at the start of a sequence.
pub open spec fn initial_line(statement: bool) -> Line {
    Line {
        address: 0,
        operation: 0,
        file: 1,
        line: 1,
        column: 0,
        statement,
        basic_block: false,
        sequence_end: false,
        prologue_end: false,
        epilogue_begin: false,
        isa: 0,
        discriminator: 0,
    }
}

impl Line {
    fn new(statement: bool) -> (r: Self)
        ensures
            r == initial_line(statement),
    {
        Line {
            address: 0,
            operation: 0,
            file: 1,
            line: 1,
            column: 0,
            statement,
            basic_block: false,
            sequence_end: false,
            prologue_end: false,
            epilogue_begin: false,
            isa: 0,
            discriminator: 0,
        }
    }
}

/// The header fields that govern the line-number machine.
pub struct LineHeader {
    pub address_size: u8,
    pub address_step: u8,
    pub operation_range: u8,
    pub default_statement: bool,
    pub line_base: i8,
    pub line_range: u8,
    pub opcode_base: u8,
    pub standard_opcode_lengths: Seq<u8>,
    pub big: bool,
}

/// A line program: the header of a `.debug_line` contribution and its opcodes.
#[derive(Clone, Debug, PartialEq, Eq)]
pub struct LineProgram<'data, E: Endian> {
    pub offset: usize,
    pub endian: E,
    pub version: u16,
    pub address_size: u8,
    pub offset_size: u8,
    /// The minimum instruction length.
    pub address_step: u8,
    /// The maximum number of operations per instruction.
    pub operation_range: u8,
    pub default_statement: bool,
    pub line_base: i8,
    pub line_range: u8,
    pub opcode_base: u8,
    pub standard_opcode_lengths: &'data [u8],
    pub include_directories: Vec<&'data [u8]>,
    pub files: Vec<FileEntry<'data>>,
    /// The opcodes.
    pub data: &'data [u8],
}

impl<'data, E: Endian> LineProgram<'data, E> {
    pub open spec fn header(&self) -> LineHeader {
        LineHeader {
            address_size: self.address_size,
            address_step: self.address_step,
            operation_range: self.operation_range,
            default_statement: self.default_statement,
            line_base: self.line_base,
            line_range: self.line_range,
            opcode_base: self.opcode_base,
            standard_opcode_lengths: self.standard_opcode_lengths@,
            big: self.endian.spec_big(),
        }
    }

    /// The divisors the machine uses are nonzero.
    pub open spec fn wf(&self) -> bool {
        self.operation_range != 0 && self.line_range != 0
    }

    pub open spec fn files_view(&self) -> Seq<FileSpec> {
        self.files@.map_values(|f: FileEntry<'data>| f@)
    }

    pub open spec fn directories_view(&self) -> Seq<Seq<u8>> {
        self.include_directories@.map_values(|d: &'data [u8]| d@)
    }
}

// ---------------------------------------------------------------------------
// The line-number machine

/// Moves the address and operation index on by `op_delta` operations.
pub open spec fn advance_pc(h: LineHeader, line: Line, op_delta: u64) -> Line {
    let operation = u64_specs::wrapping_add(line.operation, op_delta);
    let address_delta = operation / (h.operation_range as u64);
    Line {
        operation: operation % (h.operation_range as u64),
        address: u64_specs::wrapping_add(
            line.address,
            u64_specs::wrapping_mul(h.address_step as u64, address_delta),
        ),
        ..line
    }
}

/// Moves the line on by `delta`, modulo 2^64.
pub open spec fn advance_line(line: Line, delta: i64) -> Line {
    Line { line: u64_specs::wrapping_add_signed(line.line, delta), ..line }
}

/// `n` unsigned LEB128 numbers at the start of `s`: the bytes they take.
pub open spec fn skip_ulebs(s: Seq<u8>, n: nat) -> Result<nat, ReadError>
    decreases n,
{
    if n == 0 {
        Ok(0)
    } else {
        match uleb_decode(s) {
            Ok((v, k)) => match skip_ulebs(s.skip(k as int), (n - 1) as nat) {
                Ok(m) => Ok(k + m),
                Err(e) => Err(e),
            },
            Err(e) => Err(e),
        }
    }
}

/// One step of the machine: the state after the opcode at the start of `s`,
/// whether it emits a row, and the bytes the opcode takes.
pub struct Step {
    pub line: Line,
    pub files: Seq<FileSpec>,
    pub copy: bool,
    pub len: nat,
}

pub open spec fn step(line: Line, files: Seq<FileSpec>, copy: bool, len: nat) -> Step {
    Step { line, files, copy, len }
}

/// The sub-opcode and operands of an extended opcode, within `region`.
pub open spec fn extended_decode(h: LineHeader, line: Line, files: Seq<FileSpec>, region: Seq<u8>) -> Result<
    (Line, Seq<FileSpec>, bool),
    ReadError,
> {
    if region.len() == 0 {
        Err(ReadError::Eof)
    } else {
        let sub = region[0];
        let ops = region.drop_first();
        if sub == 0 {
            Err(ReadError::Invalid)
        } else if sub == DW_LNE_end_sequence {
            Ok((Line { sequence_end: true, ..line }, files, true))
        } else if sub == DW_LNE_set_address {
            match sized_decode(ops, h.address_size, h.big) {
                Ok((a, n)) => Ok((Line { address: a as u64, operation: 0, ..line }, files, false)),
                Err(e) => Err(e),
            }
        } else if sub == DW_LNE_define_file {
            match file_entry_decode(ops) {
                Ok((f, n)) => Ok((line, files.push(f), false)),
                Err(e) => Err(e),
            }
        } else if sub == DW_LNE_set_discriminator {
            match uleb_decode(ops) {
                Ok((d, n)) => Ok((Line { discriminator: d as u64, ..line }, files, false)),
                Err(e) => Err(e),
            }
        } else {
            Ok((line, files, false))
        }
    }
}

/// The step that a standard opcode taking one unsigned LEB128 operand makes.
pub open spec fn with_uleb(s: Seq<u8>, f: spec_fn(u64) -> Line, files: Seq<FileSpec>) -> Result<Step, ReadError> {
    match uleb_decode(s.drop_first()) {
        Ok((v, n)) => Ok(step(f(v as u64), files, false, 1 + n)),
        Err(e) => Err(e),
    }
}

/// One opcode at the start of `s`.
pub open spec fn opcode_decode(h: LineHeader, line: Line, files: Seq<FileSpec>, s: Seq<u8>) -> Result<Step, ReadError> {
    if s.len() == 0 {
        Err(ReadError::Eof)
    } else {
        let op = s[0];
        if op == DW_LNS_extended {
            match uleb_decode(s.drop_first()) {
                Ok((len, n)) => if len > s.len() - 1 - n {
                    Err(ReadError::Invalid)
                } else {
                    match extended_decode(h, line, files, s.subrange((1 + n) as int, (1 + n + len) as int)) {
                        Ok((l, fs, c)) => Ok(step(l, fs, c, 1 + n + len)),
                        Err(e) => Err(e),
                    }
                },
                Err(e) => Err(e),
            }
        } else if op < h.opcode_base {
            if op == DW_LNS_copy {
                Ok(step(line, files, true, 1))
            } else if op == DW_LNS_advance_pc {
                with_uleb(s, |v: u64| advance_pc(h, line, v), files)
            } else if op == DW_LNS_advance_line {
                match sleb_decode(s.drop_first()) {
                    Ok((v, n)) => Ok(step(advance_line(line, v as i64), files, false, 1 + n)),
                    Err(e) => Err(e),
                }
            } else if op == DW_LNS_set_file {
                with_uleb(s, |v: u64| Line { file: v, ..line }, files)
            } else if op == DW_LNS_set_column {
                with_uleb(s, |v: u64| Line { column: v, ..line }, files)
            } else if op == DW_LNS_negate_stmt {
                Ok(step(Line { statement: !line.statement, ..line }, files, false, 1))
            } else if op == DW_LNS_set_basic_block {
                Ok(step(Line { basic_block: true, ..line }, files, false, 1))
            } else if op == DW_LNS_const_add_pc {
                Ok(step(advance_pc(h, line, ((255 - h.opcode_base) / (h.line_range as int)) as u64), files, false, 1))
            } else if op == DW_LNS_fixed_advance_pc {
                match fixed_decode(s.drop_first(), 2, h.big) {
                    Ok((v, n)) => Ok(
                        step(Line { address: u64_specs::wrapping_add(line.address, v as u64), operation: 0, ..line }, files, false, 1 + n),
                    ),
                    Err(e) => Err(e),
                }
            } else if op == DW_LNS_set_prologue_end {
                Ok(step(Line { prologue_end: true, ..line }, files, false, 1))
            } else if op == DW_LNS_set_epilogue_begin {
                Ok(step(Line { epilogue_begin: true, ..line }, files, false, 1))
            } else if op == DW_LNS_set_isa {
                with_uleb(s, |v: u64| Line { isa: v, ..line }, files)
            } else if op - 1 >= h.standard_opcode_lengths.len() {
                Err(ReadError::Invalid)
            } else {
                match skip_ulebs(s.drop_first(), h.standard_opcode_lengths[op - 1] as nat) {
                    Ok(n) => Ok(step(line, files, false, 1 + n)),
                    Err(e) => Err(e),
                }
            }
        } else {
            let adj = op - h.opcode_base;
            let op_delta = adj / (h.line_range as int);
            let line_delta = h.line_base + adj % (h.line_range as int);
            Ok(step(advance_line(advance_pc(h, line, op_delta as u64), line_delta as i64), files, true, 1))
        }
    }
}

pub proof fn lemma_skip_ulebs_len(s: Seq<u8>, n: nat)
    ensures
        skip_ulebs(s, n) matches Ok(m) ==> m <= s.len(),
    decreases n,
{
    if n > 0 {
        crate::leb128::lemma_uleb_len(s, 0);
        if let Ok((v, k)) = uleb_decode(s) {
            lemma_skip_ulebs_len(s.skip(k as int), (n - 1) as nat);
        }
    }
}

/// An opcode takes at least one byte and no more than there are.
pub proof fn lemma_opcode_len(h: LineHeader, line: Line, files: Seq<FileSpec>, s: Seq<u8>)
    ensures
        opcode_decode(h, line, files, s) matches Ok(st) ==> 1 <= st.len <= s.len(),
{
    if s.len() > 0 {
        crate::leb128::lemma_uleb_len(s.drop_first(), 0);
        crate::leb128::lemma_sleb_len(s.drop_first(), 0);
        let op = s[0];
        if op != DW_LNS_extended && op < h.opcode_base && op >= 1 && op - 1 < h.standard_opcode_lengths.len() {
            lemma_skip_ulebs_len(s.drop_first(), h.standard_opcode_lengths[op - 1] as nat);
        }
    }
}

/// Opcodes from the start of `s` up to and including the first that emits a
/// row: the row, the file table, and the bytes they take.
pub open spec fn run_to_copy(h: LineHeader, line: Line, files: Seq<FileSpec>, s: Seq<u8>) -> Result<
    (Line, Seq<FileSpec>, nat),
    ReadError,
>
    decreases s.len(),
{
    match opcode_decode(h, line, files, s) {
        Ok(st) => if st.copy {
            Ok((st.line, st.files, st.len))
        } else {
            proof {
                lemma_opcode_len(h, line, files, s);
            }
            match run_to_copy(h, st.line, st.files, s.skip(st.len as int)) {
                Ok((l, f, m)) => Ok((l, f, st.len + m)),
                Err(e) => Err(e),
            }
        },
        Err(e) => Err(e),
    }
}

/// The next row of a line program whose machine holds `line` and `files`,
/// with the opcodes `data` left: the row, the file table and the opcodes left
/// after it. `None` when no opcode is left.
pub open spec fn line_next(h: LineHeader, line: Line, files: Seq<FileSpec>, data: Seq<u8>) -> Result<
    Option<(Line, Seq<FileSpec>, Seq<u8>)>,
    ReadError,
> {
    if data.len() == 0 {
        Ok(None)
    } else {
        let start = if line.sequence_end {
            initial_line(h.default_statement)
        } else {
            Line { basic_block: false, prologue_end: false, epilogue_begin: false, discriminator: 0, ..line }
        };
        match run_to_copy(h, start, files, data) {
            Ok((l, f, n)) => Ok(Some((l, f, data.skip(n as int)))),
            Err(e) => Err(e),
        }
    }
}

/// The first `k` rows from a machine state, as far as they go without error.
pub open spec fn line_rows(h: LineHeader, line: Line, files: Seq<FileSpec>, data: Seq<u8>, k: nat) -> Seq<Line>
    decreases k,
{
    if k == 0 {
        seq![]
    } else {
        match line_next(h, line, files, data) {
            Ok(Some((l, f, d))) => seq![l] + line_rows(h, l, f, d, (k - 1) as nat),
            _ => seq![],
        }
    }
}

/// The line-number machine is a function of its program: two machines with
/// the same header, state, file table and opcodes emit the same rows.
pub proof fn lemma_line_rows_deterministic(
    h1: LineHeader,
    h2: LineHeader,
    line: Line,
    files: Seq<FileSpec>,
    data: Seq<u8>,
    k: nat,
)
    requires
        h1 == h2,
    ensures
        line_rows(h1, line, files, data, k) == line_rows(h2, line, files, data, k),
        line_next(h1, line, files, data) == line_next(h2, line, files, data),
{
}

/// Runs a line program, one row at a time.
pub struct LineIterator<'data, E: Endian> {
    program: LineProgram<'data, E>,
    line: Line,
    data: &'data [u8],
}

impl<'data, E: Endian> LineIterator<'data, E> {
    pub closed spec fn program(&self) -> LineProgram<'data, E> {
        self.program
    }

    /// The machine's registers.
    pub closed spec fn line(&self) -> Line {
        self.line
    }

    /// The opcodes left.
    pub closed spec fn rest(&self) -> Seq<u8> {
        self.data@
    }

    pub fn new(program: LineProgram<'data, E>) -> (r: Self)
        ensures
            r.program() == program,
            r.line() == initial_line(program.default_statement),
            r.rest() == program.data@,
    {
        let default_statement = program.default_statement;
        let data = program.data;
        LineIterator { program, line: Line::new(default_statement), data }
    }

    pub fn directories(&self) -> (r: &Vec<&'data [u8]>)
        ensures
            *r == self.program().include_directories,
    {
        &self.program.include_directories
    }

    /// The file table, with the entries that the opcodes define so far.
    pub fn files(&self) -> (r: &Vec<FileEntry<'data>>)
        ensures
            *r == self.program().files,
    {
        &self.program.files
    }

    /// The file entry that a row's file index names: index 0, or one past the
    /// table, names the empty entry.
    pub fn file(&self, index: u64) -> (r: FileEntry<'data>)
        ensures
            if 0 < index < self.program().files@.len() {
                r == self.program().files@[index as int]
            } else {
                r@ == (FileSpec { path: Seq::empty(), directory: 0, timestamp: 0, length: 0 })
            },
    {
        if index > 0 && index < self.program.files.len() as u64 {
            self.program.files[index as usize]
        } else {
            let r = FileEntry::default();
            assert(r.path@ =~= Seq::<u8>::empty());
            r
        }
    }

    fn advance_pc(&mut self, op_delta: u64)
        requires
            old(self).program().wf(),
        ensures
            final(self).line() == advance_pc(old(self).program().header(), old(self).line(), op_delta),
            final(self).program() == old(self).program(),
            final(self).rest() == old(self).rest(),
    {
        let operation = self.line.operation.wrapping_add(op_delta);
        let range = self.program.operation_range as u64;
        let address_delta = operation / range;
        self.line.operation = operation % range;
        self.line.address = self.line.address.wrapping_add((self.program.address_step as u64).wrapping_mul(address_delta));
    }

    fn advance_line(&mut self, delta: i64)
        ensures
            final(self).line() == advance_line(old(self).line(), delta),
            final(self).program() == old(self).program(),
            final(self).rest() == old(self).rest(),
    {
        self.line.line = self.line.line.wrapping_add_signed(delta);
    }

    fn advance_special(&mut self, opcode: u8)
        requires
            old(self).program().wf(),
            opcode >= old(self).program().opcode_base,
        ensures
            ({
                let h = old(self).program().header();
                let adj = opcode - h.opcode_base;
                final(self).line() == advance_line(
                    advance_pc(h, old(self).line(), (adj / (h.line_range as int)) as u64),
                    (h.line_base + adj % (h.line_range as int)) as i64,
                )
            }),
            final(self).program() == old(self).program(),
            final(self).rest() == old(self).rest(),
    {
        let delta = opcode - self.program.opcode_base;
        let op_delta = delta / self.program.line_range;
        let line_delta = self.program.line_base as i64 + (delta % self.program.line_range) as i64;
        self.advance_pc(op_delta as u64);
        self.advance_line(line_delta);
    }

    /// Runs the extended opcode whose length comes next in `r`.
    fn next_extended(&mut self, r: &mut &'data [u8]) -> (res: Result<bool, ReadError>)
        requires
            old(self).program().wf(),
        ensures
            final(self).program().header() == old(self).program().header(),
            final(self).program().wf(),
            final(self).rest() == old(self).rest(),
            match uleb_decode(old(r)@) {
                Ok((len, n)) => if len > old(r)@.len() - n {
                    res == Err::<bool, ReadError>(ReadError::Invalid)
                } else {
                    match extended_decode(
                        old(self).program().header(),
                        old(self).line(),
                        old(self).program().files_view(),
                        old(r)@.subrange(n as int, (n + len) as int),
                    ) {
                        Ok((l, fs, c)) => res == Ok::<bool, ReadError>(c) && final(self).line() == l
                            && final(self).program().files_view() == fs && final(r)@ == old(r)@.skip((n + len) as int),
                        Err(e) => res == Err::<bool, ReadError>(e),
                    }
                },
                Err(e) => res == Err::<bool, ReadError>(e),
            },
    {
        let ghost s0 = r@;
        proof {
            crate::leb128::lemma_uleb_len(s0, 0);
        }
        let len = leb128::read_u64(r)?;
        let ghost n = s0.len() - r@.len();
        if len > r.len() as u64 {
            return Err(ReadError::Invalid);
        }
        let rest = *r;
        let mut data = slice_subrange(rest, 0, len as usize);
        *r = slice_subrange(rest, len as usize, rest.len());
        assert(data@ =~= s0.subrange(n, n + len));
        assert(r@ =~= s0.skip(n + len));
        let ghost region = data@;
        let opcode = read_u8(&mut data)?;
        assert(data@ =~= region.drop_first());
        if opcode == 0 {
            return Err(ReadError::Invalid);
        }
        if opcode == DW_LNE_end_sequence {
            self.line.sequence_end = true;
            Ok(true)
        } else if opcode == DW_LNE_set_address {
            self.line.address = read_address(&mut data, self.program.endian, self.program.address_size)?;
            self.line.operation = 0;
            Ok(false)
        } else if opcode == DW_LNE_define_file {
            let entry = FileEntry::read(&mut data)?;
            self.program.files.push(entry);
            assert(self.program.files_view() =~= old(self).program().files_view().push(entry@));
            Ok(false)
        } else if opcode == DW_LNE_set_discriminator {
            self.line.discriminator = leb128::read_u64(&mut data)?;
            Ok(false)
        } else {
            // An unknown extended opcode: its operands are already skipped.
            Ok(false)
        }
    }

    /// Runs the standard opcode `opcode`, whose operands start `r`.
    #[verifier::rlimit(40)]
    fn next_standard(&mut self, opcode: u8, r: &mut &'data [u8]) -> (res: Result<bool, ReadError>)
        requires
            old(self).program().wf(),
            opcode != 0,
            opcode < old(self).program().opcode_base,
        ensures
            final(self).program() == old(self).program(),
            final(self).rest() == old(self).rest(),
            match opcode_decode(old(self).program().header(), old(self).line(), old(self).program().files_view(), seq![opcode] + old(r)@) {
                Ok(st) => res == Ok::<bool, ReadError>(st.copy) && final(self).line() == st.line
                    && old(self).program().files_view() == st.files && final(r)@ == old(r)@.skip(st.len - 1),
                Err(e) => res == Err::<bool, ReadError>(e),
            },
    {
        let ghost s1 = r@;
        let ghost s0 = seq![opcode] + s1;
        assert(s0.drop_first() =~= s1);
        assert(s0[0] == opcode);
        proof {
            crate::leb128::lemma_uleb_len(s1, 0);
            crate::leb128::lemma_sleb_len(s1, 0);
        }
        if opcode == DW_LNS_copy {
            assert(r@ =~= s1.skip(0));
            return Ok(true);
        } else if opcode == DW_LNS_advance_pc {
            let v = leb128::read_u64(r)?;
            self.advance_pc(v);
        } else if opcode == DW_LNS_advance_line {
            let v = leb128::read_i64(r)?;
            self.advance_line(v);
        } else if opcode == DW_LNS_set_file {
            self.line.file = leb128::read_u64(r)?;
        } else if opcode == DW_LNS_set_column {
            self.line.column = leb128::read_u64(r)?;
        } else if opcode == DW_LNS_negate_stmt {
            self.line.statement = !self.line.statement;
        } else if opcode == DW_LNS_set_basic_block {
            self.line.basic_block = true;
        } else if opcode == DW_LNS_const_add_pc {
            let op_delta = (255 - self.program.opcode_base) / self.program.line_range;
            self.advance_pc(op_delta as u64);
        } else if opcode == DW_LNS_fixed_advance_pc {
            let v = self.program.endian.read_u16(r)?;
            self.line.address = self.line.address.wrapping_add(v as u64);
            self.line.operation = 0;
        } else if opcode == DW_LNS_set_prologue_end {
            self.line.prologue_end = true;
        } else if opcode == DW_LNS_set_epilogue_begin {
            self.line.epilogue_begin = true;
        } else if opcode == DW_LNS_set_isa {
            self.line.isa = leb128::read_u64(r)?;
        } else {
            // An opcode of a later version: skip its operands.
            let index = (opcode - 1) as usize;
            if index >= self.program.standard_opcode_lengths.len() {
                return Err(ReadError::Invalid);
            }
            let count = self.program.standard_opcode_lengths[index];
            let mut j: u8 = 0;
            while j < count
                invariant
                    *self == *old(self),
                    s1 == old(r)@,
                    s0 == seq![opcode] + s1,
                    s0.drop_first() == s1,
                    s0[0] == opcode,
                    opcode > DW_LNS_set_isa,
                    opcode < self.program.opcode_base,
                    (opcode - 1) < self.program.standard_opcode_lengths@.len(),
                    count == self.program.standard_opcode_lengths@[opcode - 1],
                    j <= count,
                    s1.len() >= r@.len(),
                    r@ == s1.skip(s1.len() - r@.len()),
                    skip_ulebs(s1, count as nat) == match skip_ulebs(r@, (count - j) as nat) {
                        Ok(m) => Ok::<nat, ReadError>(m + (s1.len() - r@.len()) as nat),
                        Err(e) => Err(e),
                    },
                decreases count - j,
            {
                let ghost before = r@;
                proof {
                    crate::leb128::lemma_uleb_len(before, 0);
                }
                let v = leb128::read_u64(r);
                if let Err(e) = v {
                    assert(skip_ulebs(before, (count - j) as nat) == Err::<nat, ReadError>(e));
                    return Err(e);
                }
                assert(r@ =~= s1.skip(s1.len() - r@.len()));
                j = j + 1;
            }
        }
        assert(r@ =~= s1.skip(s1.len() - r@.len()));
        Ok(false)
    }

    /// Runs the opcode at the start of `r`; true when it emits a row.
    fn next_opcode(&mut self, r: &mut &'data [u8]) -> (res: Result<bool, ReadError>)
        requires
            old(self).program().wf(),
        ensures
            final(self).program().header() == old(self).program().header(),
            final(self).program().wf(),
            final(self).rest() == old(self).rest(),
            match opcode_decode(old(self).program().header(), old(self).line(), old(self).program().files_view(), old(r)@) {
                Ok(st) => res == Ok::<bool, ReadError>(st.copy) && final(self).line() == st.line
                    && final(self).program().files_view() == st.files && final(r)@ == old(r)@.skip(st.len as int),
                Err(e) => res == Err::<bool, ReadError>(e),
            },
    {
        let ghost s0 = r@;
        let opcode = read_u8(r)?;
        let ghost s1 = r@;
        assert(s0 =~= seq![opcode] + s1);
        proof {
            crate::leb128::lemma_uleb_len(s1, 0);
            if let Ok((len, n)) = uleb_decode(s1) {
                if len <= s1.len() - n {
                    assert(s1.subrange(n as int, (n + len) as int) =~= s0.subrange((1 + n) as int, (1 + n + len) as int));
                    assert(s1.skip((n + len) as int) =~= s0.skip((1 + n + len) as int));
                }
            }
        }
        if opcode == DW_LNS_extended {
            return self.next_extended(r);
        }
        if opcode >= self.program.opcode_base {
            self.advance_special(opcode);
            assert(r@ =~= s0.skip(1));
            return Ok(true);
        }
        let c = self.next_standard(opcode, r);
        proof {
            if let Ok(st) = opcode_decode(old(self).program().header(), old(self).line(), old(self).program().files_view(), s0) {
                lemma_opcode_len(old(self).program().header(), old(self).line(), old(self).program().files_view(), s0);
                assert(s1.skip(st.len - 1) =~= s0.skip(st.len as int));
            }
        }
        c
    }

    /// Runs opcodes up to the next row and returns it with the iterator, whose
    /// file table may have grown; `None` when no opcode is left.
    pub fn next(&mut self) -> (res: Result<Option<(&LineIterator<'data, E>, &Line)>, ReadError>)
        requires
            old(self).program().wf(),
        ensures
            final(self).program().wf(),
            final(self).program().header() == old(self).program().header(),
            match line_next(old(self).program().header(), old(self).line(), old(self).program().files_view(), old(self).rest()) {
                Ok(None) => res matches Ok(None) && final(self).program() == old(self).program()
                    && final(self).line() == old(self).line() && final(self).rest() == old(self).rest(),
                Ok(Some((l, fs, d))) => res matches Ok(Some((it, row))) && *row == l && final(self).line() == l
                    && final(self).program().files_view() == fs && final(self).rest() == d,
                Err(e) => res is Err && res->Err_0 == e,
            },
    {
        if self.data.len() == 0 {
            return Ok(None);
        }
        if self.line.sequence_end {
            self.line = Line::new(self.program.default_statement);
        } else {
            self.line.basic_block = false;
            self.line.prologue_end = false;
            self.line.epilogue_begin = false;
            self.line.discriminator = 0;
        }
        let ghost d0 = self.data@;
        let ghost h = self.program.header();
        let ghost start = self.line;
        let ghost f0 = self.program.files_view();
        let mut r = self.data;
        loop
            invariant
                self.program.wf(),
                self.program.header() == h,
                h == old(self).program().header(),
                d0 == old(self).rest(),
                d0.len() > 0,
                d0.len() >= r@.len(),
                r@ == d0.skip(d0.len() - r@.len()),
                self.data@ == r@,
                line_next(h, old(self).line(), old(self).program().files_view(), d0) == match run_to_copy(h, self.line, self.program.files_view(), r@) {
                    Ok((l, f, m)) => Ok::<Option<(Line, Seq<FileSpec>, Seq<u8>)>, ReadError>(Some((l, f, d0.skip(d0.len() - r@.len() + m)))),
                    Err(e) => Err(e),
                },
            decreases r@.len(),
        {
            let ghost before = r@;
            proof {
                lemma_opcode_len(h, self.line, self.program.files_view(), before);
            }
            let copy = self.next_opcode(&mut r)?;
            self.data = r;
            assert(r@ =~= d0.skip(d0.len() - r@.len()));
            if copy {
                assert(d0.skip(d0.len() - r@.len()) =~= d0.skip(d0.len() - before.len() + (before.len() - r@.len())));
                return Ok(Some((self, &self.line)));
            }
        }
    }
}

// ---------------------------------------------------------------------------
// The program header

/// A NUL-terminated list of NUL-terminated directory names.
pub open spec fn dirs_decode(s: Seq<u8>) -> Result<(Seq<Seq<u8>>, nat), ReadError>
    decreases s.len(),
{
    if s.len() == 0 {
        Err(ReadError::Invalid)
    } else if s[0] == 0 {
        Ok((seq![], 1))
    } else {
        match string_decode(s) {
            Ok((d, n)) => {
                proof {
                    lemma_string_len(s);
                }
                match dirs_decode(s.skip(n as int)) {
                    Ok((rest, m)) => Ok((seq![d] + rest, n + m)),
                    Err(e) => Err(e),
                }
            },
            Err(e) => Err(e),
        }
    }
}

/// A list of file entries ended by a zero byte.
pub open spec fn files_decode(s: Seq<u8>) -> Result<(Seq<FileSpec>, nat), ReadError>
    decreases s.len(),
{
    if s.len() == 0 {
        Err(ReadError::Invalid)
    } else if s[0] == 0 {
        Ok((seq![], 1))
    } else {
        match file_entry_decode(s) {
            Ok((f, n)) => {
                proof {
                    lemma_file_entry_len(s);
                }
                match files_decode(s.skip(n as int)) {
                    Ok((rest, m)) => Ok((seq![f] + rest, n + m)),
                    Err(e) => Err(e),
                }
            },
            Err(e) => Err(e),
        }
    }
}

pub proof fn lemma_dirs_len(s: Seq<u8>)
    ensures
        dirs_decode(s) matches Ok((v, n)) ==> 1 <= n <= s.len(),
    decreases s.len(),
{
    if s.len() > 0 && s[0] != 0 {
        lemma_string_len(s);
        if let Ok((d, n)) = string_decode(s) {
            lemma_dirs_len(s.skip(n as int));
        }
    }
}

pub proof fn lemma_files_len(s: Seq<u8>)
    ensures
        files_decode(s) matches Ok((v, n)) ==> 1 <= n <= s.len(),
    decreases s.len(),
{
    if s.len() > 0 && s[0] != 0 {
        lemma_file_entry_len(s);
        if let Ok((f, n)) = file_entry_decode(s) {
            lemma_files_len(s.skip(n as int));
        }
    }
}

/// What a line program's header holds; the directory and file lists are those
/// the header names, without the compilation unit's own.
pub struct ProgramSpec {
    pub offset_size: u8,
    pub version: u16,
    pub address_step: u8,
    pub operation_range: u8,
    pub default_statement: bool,
    pub line_base: i8,
    pub line_range: u8,
    pub opcode_base: u8,
    pub standard_opcode_lengths: Seq<u8>,
    pub include_directories: Seq<Seq<u8>>,
    pub files: Seq<FileSpec>,
    pub data: Seq<u8>,
}

/// The header fields after `header_length`, which take exactly `hdr`.
pub open spec fn program_header_decode(hdr: Seq<u8>, version: u16) -> Result<ProgramSpec, ReadError> {
    let k: int = if version >= 4 { 1 } else { 0 };
    if hdr.len() < 1 {
        Err(ReadError::Eof)
    } else if hdr[0] == 0 {
        Err(ReadError::Invalid)
    } else if version >= 4 && hdr.len() < 2 {
        Err(ReadError::Eof)
    } else if version >= 4 && hdr[1] == 0 {
        Err(ReadError::Invalid)
    } else if hdr.len() < 4 + k {
        Err(ReadError::Eof)
    } else if hdr[3 + k] == 0 {
        Err(ReadError::Invalid)
    } else if hdr.len() < 5 + k {
        Err(ReadError::Eof)
    } else if hdr[4 + k] == 0 {
        Err(ReadError::Invalid)
    } else {
        let ob = hdr[4 + k] as int;
        let p = 5 + k;
        if ob - 1 > hdr.len() - p {
            Err(ReadError::Invalid)
        } else {
            let tail = hdr.skip(p + ob - 1);
            match dirs_decode(tail) {
                Ok((dirs, n)) => match files_decode(tail.skip(n as int)) {
                    Ok((files, m)) => if n + m != tail.len() {
                        Err(ReadError::Invalid)
                    } else {
                        Ok(
                            ProgramSpec {
                                offset_size: 0,
                                version,
                                address_step: hdr[0],
                                operation_range: if version >= 4 { hdr[1] } else { 1 },
                                default_statement: hdr[1 + k] != 0,
                                line_base: if hdr[2 + k] >= 128 { (hdr[2 + k] - 256) as i8 } else { hdr[2 + k] as i8 },
                                line_range: hdr[3 + k],
                                opcode_base: hdr[4 + k],
                                standard_opcode_lengths: hdr.subrange(p, p + ob - 1),
                                include_directories: dirs,
                                files,
                                data: seq![],
                            },
                        )
                    },
                    Err(e) => Err(e),
                },
                Err(e) => Err(e),
            }
        }
    }
}

/// The line program at the start of `s`, and the bytes it takes.
pub open spec fn line_program_decode(s: Seq<u8>, big: bool) -> Result<(ProgramSpec, nat), ReadError> {
    match initial_length(s, big) {
        Ok((offset_size, len, h)) => {
            let body = s.subrange(h as int, (h + len) as int);
            match fixed_decode(body, 2, big) {
                Ok((version, n1)) => if version < 2 || version > 4 {
                    Err(ReadError::Unsupported)
                } else {
                    match sized_decode(body.skip(2), offset_size, big) {
                        Ok((header_length, n2)) => {
                            let rest = body.skip((2 + n2) as int);
                            if header_length > rest.len() {
                                Err(ReadError::Invalid)
                            } else {
                                match program_header_decode(rest.take(header_length as int), version as u16) {
                                    Ok(p) => Ok(
                                        (
                                            ProgramSpec { offset_size, data: rest.skip(header_length as int), ..p },
                                            h + len,
                                        ),
                                    ),
                                    Err(e) => Err(e),
                                }
                            }
                        },
                        Err(e) => Err(e),
                    }
                },
                Err(e) => Err(e),
            }
        },
        Err(e) => Err(e),
    }
}

fn read_dirs<'data>(r: &mut &'data [u8], dirs: &mut Vec<&'data [u8]>) -> (res: Result<(), ReadError>)
    ensures
        match dirs_decode(old(r)@) {
            Ok((ds, n)) => res is Ok && final(dirs)@.map_values(|d: &'data [u8]| d@) == old(dirs)@.map_values(
                |d: &'data [u8]| d@,
            ) + ds && final(r)@ == old(r)@.skip(n as int),
            Err(e) => res == Err::<(), ReadError>(e),
        },
{
    let ghost s0 = r@;
    let ghost d0 = dirs@.map_values(|d: &'data [u8]| d@);
    loop
        invariant_except_break
            dirs_decode(s0) == match dirs_decode(r@) {
                Ok((t, k)) => Ok::<(Seq<Seq<u8>>, nat), ReadError>(
                    (dirs@.map_values(|d: &'data [u8]| d@).skip(d0.len() as int) + t, k + (s0.len() - r@.len()) as nat),
                ),
                Err(e) => Err(e),
            },
        invariant
            s0 == old(r)@,
            d0 == old(dirs)@.map_values(|d: &'data [u8]| d@),
            s0.len() >= r@.len(),
            r@ == s0.skip(s0.len() - r@.len()),
            dirs@.len() >= d0.len(),
            dirs@.map_values(|d: &'data [u8]| d@).take(d0.len() as int) == d0,
        ensures
            dirs_decode(s0) == Ok::<(Seq<Seq<u8>>, nat), ReadError>(
                (dirs@.map_values(|d: &'data [u8]| d@).skip(d0.len() as int), (s0.len() - r@.len()) as nat),
            ),
        decreases r@.len(),
    {
        let ghost before = r@;
        let ghost acc = dirs@.map_values(|d: &'data [u8]| d@).skip(d0.len() as int);
        if r.len() < 1 {
            return Err(ReadError::Invalid);
        }
        if r[0] == 0 {
            *r = slice_subrange(*r, 1, r.len());
            assert(r@ =~= s0.skip(s0.len() - r@.len()));
            assert(acc + seq![] =~= acc);
            break;
        }
        proof {
            lemma_string_len(before);
            if has_nul(before) {
                crate::read::lemma_first_nul(before);
            }
        }
        let d = read_string(r)?;
        proof {
            let p = choose|p: int| first_nul(before, p);
            let q = d@.len() as int;
            if p < q {
                assert(before[p] == 0);
            } else if q < p {
                assert(before[q] == 0);
            }
        }
        dirs.push(d);
        proof {
            let now = dirs@.map_values(|x: &'data [u8]| x@);
            assert(now =~= dirs@.drop_last().map_values(|x: &'data [u8]| x@).push(d@));
            assert(now.skip(d0.len() as int) =~= acc.push(d@));
            assert(now.take(d0.len() as int) =~= d0);
            assert(r@ =~= s0.skip(s0.len() - r@.len()));
            if let Ok((t, k)) = dirs_decode(r@) {
                assert(acc + (seq![d@] + t) =~= acc.push(d@) + t);
            }
        }
    }
    proof {
        let now = dirs@.map_values(|x: &'data [u8]| x@);
        assert(now =~= d0 + now.skip(d0.len() as int));
    }
    Ok(())
}

fn read_files<'data>(r: &mut &'data [u8], files: &mut Vec<FileEntry<'data>>) -> (res: Result<(), ReadError>)
    ensures
        match files_decode(old(r)@) {
            Ok((fs, n)) => res is Ok && final(files)@.map_values(|f: FileEntry<'data>| f@) == old(files)@.map_values(
                |f: FileEntry<'data>| f@,
            ) + fs && final(r)@ == old(r)@.skip(n as int),
            Err(e) => res == Err::<(), ReadError>(e),
        },
{
    let ghost s0 = r@;
    let ghost f0 = files@.map_values(|f: FileEntry<'data>| f@);
    loop
        invariant_except_break
            files_decode(s0) == match files_decode(r@) {
                Ok((t, k)) => Ok::<(Seq<FileSpec>, nat), ReadError>(
                    (files@.map_values(|f: FileEntry<'data>| f@).skip(f0.len() as int) + t, k + (s0.len() - r@.len()) as nat),
                ),
                Err(e) => Err(e),
            },
        invariant
            s0 == old(r)@,
            f0 == old(files)@.map_values(|f: FileEntry<'data>| f@),
            s0.len() >= r@.len(),
            r@ == s0.skip(s0.len() - r@.len()),
            files@.len() >= f0.len(),
            files@.map_values(|f: FileEntry<'data>| f@).take(f0.len() as int) == f0,
        ensures
            files_decode(s0) == Ok::<(Seq<FileSpec>, nat), ReadError>(
                (files@.map_values(|f: FileEntry<'data>| f@).skip(f0.len() as int), (s0.len() - r@.len()) as nat),
            ),
        decreases r@.len(),
    {
        let ghost before = r@;
        let ghost acc = files@.map_values(|f: FileEntry<'data>| f@).skip(f0.len() as int);
        if r.len() < 1 {
            return Err(ReadError::Invalid);
        }
        if r[0] == 0 {
            *r = slice_subrange(*r, 1, r.len());
            assert(r@ =~= s0.skip(s0.len() - r@.len()));
            assert(acc + seq![] =~= acc);
            break;
        }
        proof {
            lemma_file_entry_len(before);
        }
        let f = FileEntry::read(r)?;
        files.push(f);
        proof {
            let now = files@.map_values(|x: FileEntry<'data>| x@);
            assert(now =~= files@.drop_last().map_values(|x: FileEntry<'data>| x@).push(f@));
            assert(now.skip(f0.len() as int) =~= acc.push(f@));
            assert(now.take(f0.len() as int) =~= f0);
            assert(r@ =~= s0.skip(s0.len() - r@.len()));
            if let Ok((t, k)) = files_decode(r@) {
                assert(acc + (seq![f@] + t) =~= acc.push(f@) + t);
            }
        }
    }
    proof {
        let now = files@.map_values(|x: FileEntry<'data>| x@);
        assert(now =~= f0 + now.skip(f0.len() as int));
    }
    Ok(())
}

/// The fields of a line program header after `header_length`.
struct HeaderFields<'data> {
    address_step: u8,
    operation_range: u8,
    default_statement: bool,
    line_base: i8,
    line_range: u8,
    opcode_base: u8,
    standard_opcode_lengths: &'data [u8],
    include_directories: Vec<&'data [u8]>,
    files: Vec<FileEntry<'data>>,
}

/// Reads the header fields that take exactly `hdr`.
#[verifier::rlimit(60)]
fn read_header_fields<'data>(hdr: &'data [u8], version: u16, comp_dir: &'data [u8], comp_name: &'data [u8]) -> (res: Result<
    HeaderFields<'data>,
    ReadError,
>)
    ensures
        match program_header_decode(hdr@, version) {
            Ok(p) => res matches Ok(f) && f.address_step == p.address_step && f.operation_range == p.operation_range
                && f.operation_range != 0 && f.line_range != 0
                && f.default_statement == p.default_statement && f.line_base == p.line_base
                && f.line_range == p.line_range && f.opcode_base == p.opcode_base
                && f.standard_opcode_lengths@ == p.standard_opcode_lengths
                && f.include_directories@.map_values(|d: &'data [u8]| d@) == seq![comp_dir@] + p.include_directories
                && f.files@.map_values(|e: FileEntry<'data>| e@) == seq![FileSpec { path: comp_name@, directory: 0, timestamp: 0, length: 0 }] + p.files,
            Err(e) => res is Err && res->Err_0 == e,
        },
{
    let mut header = hdr;
    let k: usize = if version >= 4 { 1 } else { 0 };
    let address_step = read_u8(&mut header)?;
    if address_step == 0 {
        return Err(ReadError::Invalid);
    }
    let operation_range = if version >= 4 {
        read_u8(&mut header)?
    } else {
        1
    };
    if operation_range == 0 {
        return Err(ReadError::Invalid);
    }
    assert(header@ =~= hdr@.skip(1 + k));
    if header.len() < 3 {
        return Err(ReadError::Eof);
    }
    let default_statement = read_u8(&mut header)? != 0;
    let line_base = read_i8(&mut header)?;
    let line_range = read_u8(&mut header)?;
    if line_range == 0 {
        return Err(ReadError::Invalid);
    }
    assert(header@ =~= hdr@.skip(4 + k));
    let opcode_base = read_u8(&mut header)?;
    if opcode_base == 0 {
        return Err(ReadError::Invalid);
    }
    assert(header@ =~= hdr@.skip(5 + k));
    let standard_opcode_lengths = read_block(&mut header, opcode_base as usize - 1)?;
    let ghost tail = header@;
    assert(tail =~= hdr@.skip(5 + k + opcode_base - 1));
    assert(standard_opcode_lengths@ =~= hdr@.subrange(5 + k, 5 + k + opcode_base - 1));
    let mut include_directories: Vec<&'data [u8]> = Vec::new();
    include_directories.push(comp_dir);
    read_dirs(&mut header, &mut include_directories)?;
    let mut files: Vec<FileEntry<'data>> = Vec::new();
    files.push(FileEntry { path: comp_name, directory: 0, timestamp: 0, length: 0 });
    proof {
        lemma_dirs_len(tail);
        if let Ok((dirs, n)) = dirs_decode(tail) {
            lemma_files_len(tail.skip(n as int));
        }
    }
    read_files(&mut header, &mut files)?;
    if header.len() != 0 {
        return Err(ReadError::Invalid);
    }
    proof {
        let (dirs, n) = dirs_decode(tail)->Ok_0;
        let (fs, m) = files_decode(tail.skip(n as int))->Ok_0;
        assert(include_directories@.map_values(|d: &'data [u8]| d@) =~= seq![comp_dir@] + dirs);
        assert(files@.map_values(|f: FileEntry<'data>| f@) =~= seq![FileSpec { path: comp_name@, directory: 0, timestamp: 0, length: 0 }] + fs);
    }
    Ok(HeaderFields {
        address_step,
        operation_range,
        default_statement,
        line_base,
        line_range,
        opcode_base,
        standard_opcode_lengths,
        include_directories,
        files,
    })
}

impl<'data, E: Endian> LineProgram<'data, E> {
    /// Reads the line program at the start of `r`, which lies at `offset` in
    /// `.debug_line`. The unit's directory and name come first in the
    /// directory and file tables.
    #[verifier::rlimit(100)]
    pub fn read(
        r: &mut &'data [u8],
        offset: usize,
        endian: E,
        address_size: u8,
        comp_dir: &'data [u8],
        comp_name: &'data [u8],
    ) -> (res: Result<LineProgram<'data, E>, ReadError>)
        ensures
            match line_program_decode(old(r)@, endian.spec_big()) {
                Ok((p, n)) => res matches Ok(lp) && lp.wf() && lp.offset == offset && lp.endian == endian
                    && lp.address_size == address_size && lp.offset_size == p.offset_size && lp.version == p.version
                    && lp.address_step == p.address_step && lp.operation_range == p.operation_range
                    && lp.default_statement == p.default_statement && lp.line_base == p.line_base
                    && lp.line_range == p.line_range && lp.opcode_base == p.opcode_base
                    && lp.standard_opcode_lengths@ == p.standard_opcode_lengths
                    && lp.directories_view() == seq![comp_dir@] + p.include_directories
                    && lp.files_view() == seq![FileSpec { path: comp_name@, directory: 0, timestamp: 0, length: 0 }] + p.files
                    && lp.data@ == p.data && final(r)@ == old(r)@.skip(n as int),
                Err(e) => res == Err::<LineProgram<'data, E>, ReadError>(e),
            },
    {
        let ghost s0 = r@;
        // The length of a slice fits in usize; the proof needs that of `r`.
        let _ = r.len();
        let (offset_size, len) = read_initial_length(r, endian)?;
        let ghost h = initial_length(s0, endian.spec_big())->Ok_0.2;
        assert(r@ == s0.skip(h as int));
        let after = *r;
        let mut data = slice_subrange(after, 0, len);
        assert(data@ =~= s0.subrange(h as int, h + len));
        let ghost body = data@;
        let version = endian.read_u16(&mut data)?;
        if version < 2 || version > 4 {
            return Err(ReadError::Unsupported);
        }
        let ghost b1 = data@;
        assert(b1 =~= body.skip(2));
        let header_length = read_offset(&mut data, endian, offset_size)?;
        let ghost rest = data@;
        proof {
            let n2 = sized_decode(b1, offset_size, endian.spec_big())->Ok_0.1;
            assert(rest =~= body.skip((2 + n2) as int));
        }
        if header_length > data.len() as u64 {
            return Err(ReadError::Invalid);
        }
        let header = slice_subrange(data, 0, header_length as usize);
        let program_data = slice_subrange(data, header_length as usize, data.len());
        assert(header@ =~= rest.take(header_length as int));
        assert(program_data@ =~= rest.skip(header_length as int));
        let fields = read_header_fields(header, version, comp_dir, comp_name)?;
        *r = slice_subrange(after, len, after.len());
        assert(r@ =~= s0.skip(h + len));
        Ok(LineProgram {
            offset,
            endian,
            version,
            address_size,
            offset_size,
            address_step: fields.address_step,
            operation_range: fields.operation_range,
            default_statement: fields.default_statement,
            line_base: fields.line_base,
            line_range: fields.line_range,
            opcode_base: fields.opcode_base,
            standard_opcode_lengths: fields.standard_opcode_lengths,
            include_directories: fields.include_directories,
            files: fields.files,
            data: program_data,
        })
    }

    /// A copy of the program with the same header, tables and opcodes.
    fn duplicate(&self) -> (r: Self)
        ensures
            r.offset == self.offset && r.endian == self.endian && r.version == self.version
                && r.address_size == self.address_size && r.offset_size == self.offset_size
                && r.header() == self.header() && r.directories_view() == self.directories_view()
                && r.files_view() == self.files_view() && r.data == self.data,
    {
        let mut include_directories: Vec<&'data [u8]> = Vec::new();
        let mut i: usize = 0;
        while i < self.include_directories.len()
            invariant
                i <= self.include_directories@.len(),
                include_directories@ == self.include_directories@.take(i as int),
            decreases self.include_directories.len() - i,
        {
            include_directories.push(self.include_directories[i]);
            i = i + 1;
            assert(include_directories@ =~= self.include_directories@.take(i as int));
        }
        let mut files: Vec<FileEntry<'data>> = Vec::new();
        let mut j: usize = 0;
        while j < self.files.len()
            invariant
                j <= self.files@.len(),
                files@ == self.files@.take(j as int),
            decreases self.files.len() - j,
        {
            files.push(self.files[j]);
            j = j + 1;
            assert(files@ =~= self.files@.take(j as int));
        }
        assert(include_directories@ =~= self.include_directories@);
        assert(files@ =~= self.files@);
        LineProgram {
            offset: self.offset,
            endian: self.endian,
            version: self.version,
            address_size: self.address_size,
            offset_size: self.offset_size,
            address_step: self.address_step,
            operation_range: self.operation_range,
            default_statement: self.default_statement,
            line_base: self.line_base,
            line_range: self.line_range,
            opcode_base: self.opcode_base,
            standard_opcode_lengths: self.standard_opcode_lengths,
            include_directories,
            files,
            data: self.data,
        }
    }

    /// An iterator over the rows, which leaves this program as it is.
    pub fn lines(&self) -> (r: LineIterator<'data, E>)
        ensures
            r.program().header() == self.header(),
            r.program().files_view() == self.files_view(),
            r.program().directories_view() == self.directories_view(),
            r.line() == initial_line(self.default_statement),
            r.rest() == self.data@,
    {
        LineIterator::new(self.duplicate())
    }

    /// An iterator over the rows, which takes the program.
    pub fn into_lines(self) -> (r: LineIterator<'data, E>)
        ensures
            r.program() == self,
            r.line() == initial_line(self.default_statement),
            r.rest() == self.data@,
    {
        LineIterator::new(self)
    }
}

} // verus!
