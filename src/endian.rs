use vstd::prelude::*;
use vstd::slice::slice_subrange;

use crate::read::ReadError;

verus! {

/// Value of a byte string read least significant byte first.
pub open spec fn le_value(b: Seq<u8>) -> nat
    decreases b.len(),
{
    if b.len() == 0 {
        0
    } else {
        b[0] as nat + 256 * le_value(b.drop_first())
    }
}

/// Value of a byte string read most significant byte first.
pub open spec fn be_value(b: Seq<u8>) -> nat
    decreases b.len(),
{
    if b.len() == 0 {
        0
    } else {
        be_value(b.drop_last()) * 256 + b.last() as nat
    }
}

/// Value of a fixed-width integer encoded in `b` in the given byte order.
pub open spec fn uint_value(b: Seq<u8>, big: bool) -> nat {
    if big {
        be_value(b)
    } else {
        le_value(b)
    }
}

/// The `n` low bytes of `v`, least significant first.
pub open spec fn le_bytes(v: nat, n: nat) -> Seq<u8>
    decreases n,
{
    if n == 0 {
        seq![]
    } else {
        seq![(v % 256) as u8] + le_bytes(v / 256, (n - 1) as nat)
    }
}

/// The `n` low bytes of `v`, most significant first.
pub open spec fn be_bytes(v: nat, n: nat) -> Seq<u8>
    decreases n,
{
    if n == 0 {
        seq![]
    } else {
        be_bytes(v / 256, (n - 1) as nat).push((v % 256) as u8)
    }
}

/// The `n` low bytes of `v` in the given byte order.
pub open spec fn uint_bytes(v: nat, n: nat, big: bool) -> Seq<u8> {
    if big {
        be_bytes(v, n)
    } else {
        le_bytes(v, n)
    }
}

pub open spec fn pow256(n: nat) -> nat
    decreases n,
{
    if n == 0 {
        1
    } else {
        256 * pow256((n - 1) as nat)
    }
}

/// The outcome of reading an `n`-byte integer from `old`, leaving `new`.
pub open spec fn fixed_read(
    old: Seq<u8>,
    new: Seq<u8>,
    n: nat,
    big: bool,
    res: Result<nat, ReadError>,
) -> bool {
    if old.len() < n {
        res == Err::<nat, ReadError>(ReadError::Eof) && new == old
    } else {
        res == Ok::<nat, ReadError>(uint_value(old.take(n as int), big)) && new == old.skip(n as int)
    }
}

pub open spec fn nat_of_u16(res: Result<u16, ReadError>) -> Result<nat, ReadError> {
    match res {
        Ok(v) => Ok(v as nat),
        Err(e) => Err(e),
    }
}

pub open spec fn nat_of_u32(res: Result<u32, ReadError>) -> Result<nat, ReadError> {
    match res {
        Ok(v) => Ok(v as nat),
        Err(e) => Err(e),
    }
}

pub open spec fn nat_of_u64(res: Result<u64, ReadError>) -> Result<nat, ReadError> {
    match res {
        Ok(v) => Ok(v as nat),
        Err(e) => Err(e),
    }
}

pub proof fn lemma_pow256_values()
    ensures
        pow256(1) == 0x100,
        pow256(2) == 0x10000,
        pow256(4) == 0x1_0000_0000,
        pow256(8) == 0x1_0000_0000_0000_0000,
{
    reveal_with_fuel(pow256, 9);
}

pub proof fn lemma_pow256_mono(a: nat, b: nat)
    requires
        a <= b,
    ensures
        pow256(a) <= pow256(b),
        pow256(a) >= 1,
    decreases b,
{
    if b > a {
        lemma_pow256_mono(a, (b - 1) as nat);
    } else if a > 0 {
        lemma_pow256_mono((a - 1) as nat, (a - 1) as nat);
    }
}

pub proof fn lemma_le_bytes_len(v: nat, n: nat)
    ensures
        le_bytes(v, n).len() == n,
        be_bytes(v, n).len() == n,
    decreases n,
{
    if n > 0 {
        lemma_le_bytes_len(v / 256, (n - 1) as nat);
    }
}

/// A value read back from its `n` low bytes is the value modulo `256^n`.
pub proof fn lemma_uint_round_trip(v: nat, n: nat, big: bool)
    ensures
        uint_bytes(v, n, big).len() == n,
        uint_value(uint_bytes(v, n, big), big) == v % pow256(n),
    decreases n,
{
    lemma_le_bytes_len(v, n);
    if n > 0 {
        let m = (n - 1) as nat;
        lemma_uint_round_trip(v / 256, m, big);
        lemma_pow256_mono(m, m);
        let p = pow256(m);
        let q = v / 256;
        vstd::arithmetic::div_mod::lemma_fundamental_div_mod(q as int, p as int);
        assert(v % 256 + 256 * q == v);
        let (qi, pi, dq, mq) = (q as int, p as int, (q / p) as int, (q % p) as int);
        assert(256 * qi == 256 * pi * dq + 256 * mq) by (nonlinear_arith)
            requires
                pi * dq + mq == qi,
        ;
        assert(0 <= v % 256 + 256 * (q % p) < 256 * p) by (nonlinear_arith)
            requires
                0 <= q % p < p,
                0 <= v % 256 < 256,
        ;
        vstd::arithmetic::div_mod::lemma_fundamental_div_mod_converse(
            v as int,
            (256 * p) as int,
            (q / p) as int,
            (v % 256 + 256 * (q % p)) as int,
        );
        if big {
            let b = be_bytes(v, n);
            assert(b.drop_last() =~= be_bytes(q, m));
        } else {
            let b = le_bytes(v, n);
            assert(b.drop_first() =~= le_bytes(q, m));
        }
    }
}

/// An integer encoded in `n` bytes is below `256^n`.
pub proof fn lemma_uint_value_bound(b: Seq<u8>, big: bool)
    ensures
        uint_value(b, big) < pow256(b.len()),
    decreases b.len(),
{
    if b.len() > 0 {
        if big {
            lemma_uint_value_bound(b.drop_last(), big);
        } else {
            lemma_uint_value_bound(b.drop_first(), big);
        }
    }
}

/// Reads an `n`-byte unsigned integer in the given byte order.
fn read_uint(r: &mut &[u8], n: usize, big: bool) -> (res: Result<u64, ReadError>)
    requires
        n <= 8,
    ensures
        fixed_read(old(r)@, final(r)@, n as nat, big, nat_of_u64(res)),
        res is Ok ==> uint_value(old(r)@.take(n as int), big) < pow256(n as nat),
{
    let b: &[u8] = *r;
    if b.len() < n {
        return Err(ReadError::Eof);
    }
    proof {
        lemma_pow256_values();
        lemma_pow256_mono(n as nat, 8);
    }
    let mut val: u64 = 0;
    if big {
        let mut i: usize = 0;
        while i < n
            invariant
                i <= n <= 8,
                n <= b@.len(),
                pow256(n as nat) <= 0x1_0000_0000_0000_0000,
                val as nat == be_value(b@.take(i as int)),
                val < pow256(i as nat),
            decreases n - i,
        {
            proof {
                assert(b@.take(i + 1).drop_last() =~= b@.take(i as int));
                lemma_pow256_mono((i + 1) as nat, n as nat);
            }
            val = val * 256 + b[i] as u64;
            i = i + 1;
        }
        assert(b@.take(n as int) =~= b@.take(i as int));
    } else {
        let mut i: usize = n;
        while i > 0
            invariant
                i <= n <= 8,
                n <= b@.len(),
                pow256(n as nat) <= 0x1_0000_0000_0000_0000,
                val as nat == le_value(b@.subrange(i as int, n as int)),
                val < pow256((n - i) as nat),
            decreases i,
        {
            proof {
                assert(b@.subrange(i - 1, n as int).drop_first() =~= b@.subrange(i as int, n as int));
                lemma_pow256_mono((n - i + 1) as nat, n as nat);
            }
            val = val * 256 + b[i - 1] as u64;
            i = i - 1;
        }
        assert(b@.take(n as int) =~= b@.subrange(0, n as int));
    }
    *r = slice_subrange(b, n, b.len());
    assert(r@ =~= b@.skip(n as int));
    Ok(val)
}

/// Appends the `n` low bytes of `v` in the given byte order.
pub(crate) fn write_uint(w: &mut Vec<u8>, v: u64, n: usize, big: bool)
    ensures
        final(w)@ == old(w)@ + uint_bytes(v as nat, n as nat, big),
    decreases n,
{
    if n > 0 {
        let ghost w0 = w@;
        let byte = (v % 256) as u8;
        if big {
            write_uint(w, v / 256, n - 1, big);
            w.push(byte);
            assert(w@ =~= w0 + be_bytes(v as nat, n as nat));
        } else {
            w.push(byte);
            write_uint(w, v / 256, n - 1, big);
            assert(w@ =~= w0 + le_bytes(v as nat, n as nat));
        }
    } else {
        assert(w@ =~= old(w)@ + uint_bytes(v as nat, n as nat, big));
    }
}

/// A byte order for fixed-width integers.
pub trait Endian: Copy {
    /// Whether the most significant byte comes first.
    spec fn spec_big(&self) -> bool;

    fn is_big(&self) -> (r: bool)
        ensures
            r == self.spec_big(),
    ;

    fn read_u16(&self, r: &mut &[u8]) -> (res: Result<u16, ReadError>)
        ensures
            fixed_read(old(r)@, final(r)@, 2, self.spec_big(), nat_of_u16(res)),
    ;

    fn read_u32(&self, r: &mut &[u8]) -> (res: Result<u32, ReadError>)
        ensures
            fixed_read(old(r)@, final(r)@, 4, self.spec_big(), nat_of_u32(res)),
    ;

    fn read_u64(&self, r: &mut &[u8]) -> (res: Result<u64, ReadError>)
        ensures
            fixed_read(old(r)@, final(r)@, 8, self.spec_big(), nat_of_u64(res)),
    ;

    fn write_u16(&self, w: &mut Vec<u8>, val: u16)
        ensures
            final(w)@ == old(w)@ + uint_bytes(val as nat, 2, self.spec_big()),
    ;

    fn write_u32(&self, w: &mut Vec<u8>, val: u32)
        ensures
            final(w)@ == old(w)@ + uint_bytes(val as nat, 4, self.spec_big()),
    ;

    fn write_u64(&self, w: &mut Vec<u8>, val: u64)
        ensures
            final(w)@ == old(w)@ + uint_bytes(val as nat, 8, self.spec_big()),
    ;
}

fn read_u16_in(r: &mut &[u8], big: bool) -> (res: Result<u16, ReadError>)
    ensures
        fixed_read(old(r)@, final(r)@, 2, big, nat_of_u16(res)),
{
    proof {
        lemma_pow256_values();
    }
    match read_uint(r, 2, big) {
        Ok(v) => Ok(v as u16),
        Err(e) => Err(e),
    }
}

fn read_u32_in(r: &mut &[u8], big: bool) -> (res: Result<u32, ReadError>)
    ensures
        fixed_read(old(r)@, final(r)@, 4, big, nat_of_u32(res)),
{
    proof {
        lemma_pow256_values();
    }
    match read_uint(r, 4, big) {
        Ok(v) => Ok(v as u32),
        Err(e) => Err(e),
    }
}

fn read_u64_in(r: &mut &[u8], big: bool) -> (res: Result<u64, ReadError>)
    ensures
        fixed_read(old(r)@, final(r)@, 8, big, nat_of_u64(res)),
{
    read_uint(r, 8, big)
}

#[derive(Clone, Copy, Debug, PartialEq, Eq, Structural)]
pub struct LittleEndian;

#[derive(Clone, Copy, Debug, PartialEq, Eq, Structural)]
pub struct BigEndian;

/// A byte order chosen at run time.
#[derive(Clone, Copy, Debug, PartialEq, Eq, Structural)]
pub enum AnyEndian {
    Little,
    Big,
}

impl Default for LittleEndian {
    fn default() -> (r: Self) {
        LittleEndian
    }
}

impl Default for BigEndian {
    fn default() -> (r: Self) {
        BigEndian
    }
}

impl Default for AnyEndian {
    /// Little-endian, the order of the common hosts.
    fn default() -> (r: Self)
        ensures
            r == AnyEndian::Little,
    {
        AnyEndian::Little
    }
}

impl Endian for LittleEndian {
    open spec fn spec_big(&self) -> bool {
        false
    }

    fn is_big(&self) -> (r: bool) {
        false
    }

    fn read_u16(&self, r: &mut &[u8]) -> (res: Result<u16, ReadError>) {
        read_u16_in(r, false)
    }

    fn read_u32(&self, r: &mut &[u8]) -> (res: Result<u32, ReadError>) {
        read_u32_in(r, false)
    }

    fn read_u64(&self, r: &mut &[u8]) -> (res: Result<u64, ReadError>) {
        read_u64_in(r, false)
    }

    fn write_u16(&self, w: &mut Vec<u8>, val: u16) {
        write_uint(w, val as u64, 2, false)
    }

    fn write_u32(&self, w: &mut Vec<u8>, val: u32) {
        write_uint(w, val as u64, 4, false)
    }

    fn write_u64(&self, w: &mut Vec<u8>, val: u64) {
        write_uint(w, val, 8, false)
    }
}

impl Endian for BigEndian {
    open spec fn spec_big(&self) -> bool {
        true
    }

    fn is_big(&self) -> (r: bool) {
        true
    }

    fn read_u16(&self, r: &mut &[u8]) -> (res: Result<u16, ReadError>) {
        read_u16_in(r, true)
    }

    fn read_u32(&self, r: &mut &[u8]) -> (res: Result<u32, ReadError>) {
        read_u32_in(r, true)
    }

    fn read_u64(&self, r: &mut &[u8]) -> (res: Result<u64, ReadError>) {
        read_u64_in(r, true)
    }

    fn write_u16(&self, w: &mut Vec<u8>, val: u16) {
        write_uint(w, val as u64, 2, true)
    }

    fn write_u32(&self, w: &mut Vec<u8>, val: u32) {
        write_uint(w, val as u64, 4, true)
    }

    fn write_u64(&self, w: &mut Vec<u8>, val: u64) {
        write_uint(w, val, 8, true)
    }
}

impl Endian for AnyEndian {
    open spec fn spec_big(&self) -> bool {
        *self == AnyEndian::Big
    }

    fn is_big(&self) -> (r: bool) {
        match self {
            AnyEndian::Little => false,
            AnyEndian::Big => true,
        }
    }

    fn read_u16(&self, r: &mut &[u8]) -> (res: Result<u16, ReadError>) {
        read_u16_in(r, self.is_big())
    }

    fn read_u32(&self, r: &mut &[u8]) -> (res: Result<u32, ReadError>) {
        read_u32_in(r, self.is_big())
    }

    fn read_u64(&self, r: &mut &[u8]) -> (res: Result<u64, ReadError>) {
        read_u64_in(r, self.is_big())
    }

    fn write_u16(&self, w: &mut Vec<u8>, val: u16) {
        write_uint(w, val as u64, 2, self.is_big())
    }

    fn write_u32(&self, w: &mut Vec<u8>, val: u32) {
        write_uint(w, val as u64, 4, self.is_big())
    }

    fn write_u64(&self, w: &mut Vec<u8>, val: u64) {
        write_uint(w, val, 8, self.is_big())
    }
}

} // verus!
