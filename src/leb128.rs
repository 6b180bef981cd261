use vstd::prelude::*;
use vstd::slice::slice_subrange;

use crate::read::ReadError;

verus! {

/// Decoding of an unsigned LEB128 number whose byte `i` is `s[i]`: the value of
/// the bytes from `i` on (the first of them weighing 1) and how many bytes from
/// `i` on it takes. A tenth byte must be 0 or 1, or the value would not fit in 64 bits.
pub open spec fn uleb_from(s: Seq<u8>, i: nat) -> Result<(nat, nat), ReadError>
    decreases 10 - i,
{
    if i >= s.len() {
        Err(ReadError::Eof)
    } else if i >= 9 && s[i as int] > 1 {
        Err(ReadError::Overflow)
    } else if s[i as int] < 128 {
        Ok((s[i as int] as nat, 1))
    } else {
        match uleb_from(s, i + 1) {
            Ok((v, n)) => Ok(((s[i as int] % 128) as nat + 128 * v, n + 1)),
            Err(e) => Err(e),
        }
    }
}

/// Decoding of an unsigned LEB128 number at the start of `s`: its value and length.
pub open spec fn uleb_decode(s: Seq<u8>) -> Result<(nat, nat), ReadError> {
    uleb_from(s, 0)
}

/// Decoding of a signed LEB128 number whose byte `i` is `s[i]`; the last byte
/// is a signed 7-bit digit. A tenth byte must be 0x00 or 0x7f.
pub open spec fn sleb_from(s: Seq<u8>, i: nat) -> Result<(int, nat), ReadError>
    decreases 10 - i,
{
    if i >= s.len() {
        Err(ReadError::Eof)
    } else if i >= 9 && s[i as int] != 0 && s[i as int] != 0x7f {
        Err(ReadError::Overflow)
    } else if s[i as int] < 128 {
        Ok((if s[i as int] >= 64 { s[i as int] - 128 } else { s[i as int] as int }, 1))
    } else {
        match sleb_from(s, i + 1) {
            Ok((v, n)) => Ok(((s[i as int] % 128) + 128 * v, n + 1)),
            Err(e) => Err(e),
        }
    }
}

/// Decoding of a signed LEB128 number at the start of `s`: its value and length.
pub open spec fn sleb_decode(s: Seq<u8>) -> Result<(int, nat), ReadError> {
    sleb_from(s, 0)
}

/// Canonical unsigned LEB128 encoding of `x`.
pub open spec fn uleb_bytes(x: nat) -> Seq<u8>
    decreases x,
{
    if x < 128 {
        seq![x as u8]
    } else {
        seq![(x % 128 + 128) as u8] + uleb_bytes(x / 128)
    }
}

/// Canonical signed LEB128 encoding of `x`.
pub open spec fn sleb_bytes(x: int) -> Seq<u8>
    decreases (if x < 0 { -x } else { x }),
{
    if -64 <= x < 64 {
        seq![(x % 128) as u8]
    } else {
        seq![(x % 128 + 128) as u8] + sleb_bytes(x / 128)
    }
}

pub open spec fn pow128(n: nat) -> nat
    decreases n,
{
    if n == 0 {
        1
    } else {
        128 * pow128((n - 1) as nat)
    }
}

/// `r` with `acc + mult * v` in place of each decoded value `v`, and `k` more
/// bytes taken.
pub open spec fn uleb_shift(acc: nat, mult: nat, k: nat, r: Result<(nat, nat), ReadError>) -> Result<(nat, nat), ReadError> {
    match r {
        Ok((v, n)) => Ok((acc + mult * v, n + k)),
        Err(e) => Err(e),
    }
}

pub open spec fn sleb_shift(acc: int, mult: int, k: nat, r: Result<(int, nat), ReadError>) -> Result<(int, nat), ReadError> {
    match r {
        Ok((v, n)) => Ok((acc + mult * v, n + k)),
        Err(e) => Err(e),
    }
}

proof fn lemma_pow128_bounds(i: nat)
    requires
        i <= 9,
    ensures
        pow128(i) >= 1,
        i <= 8 ==> pow128(i) <= 0x100_0000_0000_0000,
        i == 9 ==> pow128(i) == 0x8000_0000_0000_0000,
    decreases i,
{
    reveal_with_fuel(pow128, 10);
    if i > 0 {
        lemma_pow128_bounds((i - 1) as nat);
    }
}

/// Reads an unsigned LEB128 number. On error nothing is consumed.
pub fn read_u64(r: &mut &[u8]) -> (res: Result<u64, ReadError>)
    ensures
        match uleb_decode(old(r)@) {
            Ok((v, n)) => res == Ok::<u64, ReadError>(v as u64) && v < 0x1_0000_0000_0000_0000
                && final(r)@ == old(r)@.skip(n as int),
            Err(e) => res == Err::<u64, ReadError>(e) && final(r)@ == old(r)@,
        },
{
    let b: &[u8] = *r;
    let mut result: u64 = 0;
    let mut mult: u64 = 1;
    let mut i: usize = 0;
    loop
        invariant
            i <= 9,
            mult as nat == pow128(i as nat),
            result < mult,
            uleb_from(b@, 0) == uleb_shift(result as nat, mult as nat, i as nat, uleb_from(b@, i as nat)),
            *r == b,
            b@ == old(r)@,
        decreases 9 - i,
    {
        proof {
            lemma_pow128_bounds(i as nat);
        }
        if i >= b.len() {
            return Err(ReadError::Eof);
        }
        let byte = b[i];
        if i >= 9 && byte > 1 {
            return Err(ReadError::Overflow);
        }
        if byte < 128 {
            assert((byte as nat) * (mult as nat) <= 127 * (mult as nat)) by (nonlinear_arith)
                requires
                    byte < 128,
            ;
            assert(i == 9 ==> (byte as nat) * (mult as nat) <= mult as nat) by (nonlinear_arith)
                requires
                    i == 9 ==> byte <= 1,
            ;
            let value = result + (byte as u64) * mult;
            assert(uleb_from(b@, i as nat) == Ok::<(nat, nat), ReadError>((byte as nat, 1nat)));
            assert((byte as nat) * (mult as nat) == (mult as nat) * (byte as nat)) by (nonlinear_arith);
            *r = slice_subrange(b, i + 1, b.len());
            assert(r@ =~= b@.skip(i + 1));
            return Ok(value);
        }
        let digit = (byte % 128) as u64;
        assert((digit as nat) * (mult as nat) <= 127 * (mult as nat)) by (nonlinear_arith)
            requires
                digit < 128,
        ;
        let ghost before = uleb_from(b@, i as nat);
        result = result + digit * mult;
        mult = mult * 128;
        i = i + 1;
        proof {
            match uleb_from(b@, i as nat) {
                Ok((v, end)) => {
                    let (a0, m0) = (result - digit * (mult / 128), mult / 128);
                    assert((result as int - digit * m0) + m0 * (digit + 128 * v) == result + mult * v)
                        by (nonlinear_arith)
                        requires
                            mult == m0 * 128,
                    ;
                },
                Err(e) => {},
            }
        }
    }
}

/// Reads a signed LEB128 number. On error nothing is consumed.
pub fn read_i64(r: &mut &[u8]) -> (res: Result<i64, ReadError>)
    ensures
        match sleb_decode(old(r)@) {
            Ok((v, n)) => res == Ok::<i64, ReadError>(v as i64) && i64::MIN <= v <= i64::MAX
                && final(r)@ == old(r)@.skip(n as int),
            Err(e) => res == Err::<i64, ReadError>(e) && final(r)@ == old(r)@,
        },
{
    let b: &[u8] = *r;
    let mut result: i128 = 0;
    let mut mult: i128 = 1;
    let mut i: usize = 0;
    loop
        invariant
            i <= 9,
            mult as nat == pow128(i as nat),
            0 <= result < mult,
            sleb_from(b@, 0) == sleb_shift(result as int, mult as int, i as nat, sleb_from(b@, i as nat)),
            *r == b,
            b@ == old(r)@,
        decreases 9 - i,
    {
        proof {
            lemma_pow128_bounds(i as nat);
        }
        if i >= b.len() {
            return Err(ReadError::Eof);
        }
        let byte = b[i];
        if i >= 9 && byte != 0 && byte != 0x7f {
            return Err(ReadError::Overflow);
        }
        if byte < 128 {
            let digit: i128 = if byte >= 64 { byte as i128 - 128 } else { byte as i128 };
            assert(-64 * mult <= digit * mult <= 63 * mult) by (nonlinear_arith)
                requires
                    -64 <= digit < 64,
                    mult >= 1,
            ;
            assert(i == 9 ==> -mult <= digit * mult <= 0) by (nonlinear_arith)
                requires
                    i == 9 ==> (digit == 0 || digit == -1),
                    mult >= 1,
            ;
            let value = result + digit * mult;
            assert(digit * mult == mult * digit) by (nonlinear_arith);
            *r = slice_subrange(b, i + 1, b.len());
            assert(r@ =~= b@.skip(i + 1));
            return Ok(value as i64);
        }
        let digit = (byte % 128) as i128;
        assert(digit * mult <= 127 * mult) by (nonlinear_arith)
            requires
                0 <= digit < 128,
                mult >= 1,
        ;
        result = result + digit * mult;
        mult = mult * 128;
        i = i + 1;
        proof {
            match sleb_from(b@, i as nat) {
                Ok((v, end)) => {
                    let m0 = mult / 128;
                    assert((result - digit * m0) + m0 * (digit + 128 * v) == result + mult * v)
                        by (nonlinear_arith)
                        requires
                            mult == m0 * 128,
                    ;
                },
                Err(e) => {},
            }
        }
    }
}

/// Decoding of an unsigned LEB128 number that must fit in 16 bits.
pub open spec fn uleb16_decode(s: Seq<u8>) -> Result<(u16, nat), ReadError> {
    match uleb_decode(s) {
        Ok((v, n)) => if v > 0xffff {
            Err(ReadError::Overflow)
        } else {
            Ok((v as u16, n))
        },
        Err(e) => Err(e),
    }
}

/// A decoded number takes at least one byte and no more than there are.
pub proof fn lemma_uleb_len(s: Seq<u8>, i: nat)
    ensures
        uleb_from(s, i) matches Ok((v, n)) ==> 1 <= n && i + n <= s.len(),
    decreases 10 - i,
{
    if i < s.len() && !(i >= 9 && s[i as int] > 1) && s[i as int] >= 128 {
        lemma_uleb_len(s, i + 1);
    }
}

/// A decoded number takes at least one byte and no more than there are.
pub proof fn lemma_sleb_len(s: Seq<u8>, i: nat)
    ensures
        sleb_from(s, i) matches Ok((v, n)) ==> 1 <= n && i + n <= s.len(),
    decreases 10 - i,
{
    if i < s.len() && !(i >= 9 && s[i as int] != 0 && s[i as int] != 0x7f) && s[i as int] >= 128 {
        lemma_sleb_len(s, i + 1);
    }
}

/// Reads an unsigned LEB128 number that must fit in 16 bits. On error nothing
/// is consumed.
pub fn read_u16(r: &mut &[u8]) -> (res: Result<u16, ReadError>)
    ensures
        match uleb16_decode(old(r)@) {
            Ok((v, n)) => res == Ok::<u16, ReadError>(v) && final(r)@ == old(r)@.skip(n as int),
            Err(e) => res == Err::<u16, ReadError>(e) && final(r)@ == old(r)@,
        },
{
    let saved: &[u8] = *r;
    let val = read_u64(r)?;
    if val > 0xffff {
        *r = saved;
        return Err(ReadError::Overflow);
    }
    Ok(val as u16)
}

/// Appends the canonical unsigned LEB128 encoding of `value`.
pub fn write_u64(w: &mut Vec<u8>, value: u64)
    ensures
        final(w)@ == old(w)@ + uleb_bytes(value as nat),
{
    let mut v: u64 = value;
    loop
        invariant
            old(w)@ + uleb_bytes(value as nat) == w@ + uleb_bytes(v as nat),
        decreases v,
    {
        let byte = (v % 128) as u8;
        let ghost w0 = w@;
        if v < 128 {
            w.push(byte);
            assert(w@ =~= w0 + uleb_bytes(v as nat));
            return;
        }
        w.push(byte + 128);
        assert(w0 + uleb_bytes(v as nat) =~= w@ + uleb_bytes((v / 128) as nat));
        v = v / 128;
    }
}

/// Floor division and remainder by 128.
fn div_mod_128(v: i128) -> (res: (i128, u8))
    requires
        i64::MIN <= v <= i64::MAX,
    ensures
        res.0 == v / 128,
        res.1 == v % 128,
{
    if v >= 0 {
        let u = v as u128;
        ((u / 128) as i128, (u % 128) as u8)
    } else {
        let m = (0 - v) as u128;
        let q = (m + 127) / 128;
        let rem = (128 - m % 128) % 128;
        proof {
            let qi = -(q as int);
            let ri = rem as int;
            assert(v == 128 * qi + ri);
            vstd::arithmetic::div_mod::lemma_fundamental_div_mod_converse(v as int, 128, qi, ri);
        }
        (0 - q as i128, rem as u8)
    }
}

/// Appends the canonical signed LEB128 encoding of `value`.
pub fn write_i64(w: &mut Vec<u8>, value: i64)
    ensures
        final(w)@ == old(w)@ + sleb_bytes(value as int),
{
    let mut v: i128 = value as i128;
    loop
        invariant
            i64::MIN <= v <= i64::MAX,
            old(w)@ + sleb_bytes(value as int) == w@ + sleb_bytes(v as int),
        decreases (if v < 0 { -(v as int) } else { v as int }),
    {
        let (q, byte) = div_mod_128(v);
        let ghost w0 = w@;
        if -64 <= v && v < 64 {
            w.push(byte);
            assert(w@ =~= w0 + sleb_bytes(v as int));
            return;
        }
        w.push(byte + 128);
        assert(w0 + sleb_bytes(v as int) =~= w@ + sleb_bytes(q as int));
        v = q;
    }
}

/// Appends the canonical unsigned LEB128 encoding of `value`.
pub fn write_u16(w: &mut Vec<u8>, value: u16)
    ensures
        final(w)@ == old(w)@ + uleb_bytes(value as nat),
{
    write_u64(w, value as u64)
}

/// The bound below which an unsigned number starting at byte `i` decodes.
pub open spec fn uleb_cap(i: nat) -> nat {
    2 * pow128((9 - i) as nat)
}

proof fn lemma_uleb_from(s: Seq<u8>, i: nat, x: nat)
    requires
        i <= 9,
        x < uleb_cap(i),
        i + uleb_bytes(x).len() <= s.len(),
        s.subrange(i as int, i as int + uleb_bytes(x).len()) == uleb_bytes(x),
    ensures
        uleb_from(s, i) == Ok::<(nat, nat), ReadError>((x, uleb_bytes(x).len())),
    decreases x,
{
    let b = uleb_bytes(x);
    assert(s[i as int] == s.subrange(i as int, i as int + b.len())[0]);
    if x >= 128 {
        let rest = uleb_bytes(x / 128);
        assert(b.drop_first() =~= rest);
        if i == 9 {
            reveal_with_fuel(pow128, 2);
            assert(false);
        }
        assert(pow128((9 - i) as nat) == 128 * pow128((9 - (i + 1)) as nat));
        assert(s.subrange(i as int + 1, i as int + 1 + rest.len()) =~= s.subrange(i as int, i as int + b.len()).drop_first());
        lemma_uleb_from(s, i + 1, x / 128);
    } else if i == 9 {
        reveal_with_fuel(pow128, 2);
    }
}

/// The bound on the magnitude of a signed number starting at byte `i`.
pub open spec fn sleb_cap(i: nat) -> nat {
    pow128((9 - i) as nat)
}

proof fn lemma_sleb_from(s: Seq<u8>, i: nat, x: int)
    requires
        i <= 9,
        -sleb_cap(i) <= x < sleb_cap(i),
        i + sleb_bytes(x).len() <= s.len(),
        s.subrange(i as int, i as int + sleb_bytes(x).len()) == sleb_bytes(x),
    ensures
        sleb_from(s, i) == Ok::<(int, nat), ReadError>((x, sleb_bytes(x).len())),
    decreases (if x < 0 { -x } else { x }),
{
    let b = sleb_bytes(x);
    assert(s[i as int] == s.subrange(i as int, i as int + b.len())[0]);
    reveal_with_fuel(pow128, 2);
    if !(-64 <= x < 64) {
        let rest = sleb_bytes(x / 128);
        assert(b.drop_first() =~= rest);
        if i == 9 {
            assert(false);
        }
        assert(pow128((9 - i) as nat) == 128 * pow128((9 - (i + 1)) as nat));
        assert(s.subrange(i as int + 1, i as int + 1 + rest.len()) =~= s.subrange(i as int, i as int + b.len()).drop_first());
        lemma_sleb_from(s, i + 1, x / 128);
    }
}

/// Every 64-bit value written as unsigned LEB128 reads back as itself, whatever
/// follows it, and the read consumes exactly the written bytes.
pub proof fn lemma_u64_round_trip(x: u64, rest: Seq<u8>)
    ensures
        uleb_decode(uleb_bytes(x as nat) + rest) == Ok::<(nat, nat), ReadError>(
            (x as nat, uleb_bytes(x as nat).len()),
        ),
{
    let s = uleb_bytes(x as nat) + rest;
    assert(s.subrange(0, uleb_bytes(x as nat).len() as int) =~= uleb_bytes(x as nat));
    lemma_pow128_bounds(9);
    lemma_uleb_from(s, 0, x as nat);
}

/// Every 16-bit value written as unsigned LEB128 reads back as itself.
pub proof fn lemma_u16_round_trip(x: u16, rest: Seq<u8>)
    ensures
        uleb16_decode(uleb_bytes(x as nat) + rest) == Ok::<(u16, nat), ReadError>(
            (x, uleb_bytes(x as nat).len()),
        ),
{
    lemma_u64_round_trip(x as u64, rest);
}

/// Every signed 64-bit value written as signed LEB128 reads back as itself,
/// whatever follows it, and the read consumes exactly the written bytes.
pub proof fn lemma_i64_round_trip(x: i64, rest: Seq<u8>)
    ensures
        sleb_decode(sleb_bytes(x as int) + rest) == Ok::<(int, nat), ReadError>(
            (x as int, sleb_bytes(x as int).len()),
        ),
{
    let s = sleb_bytes(x as int) + rest;
    assert(s.subrange(0, sleb_bytes(x as int).len() as int) =~= sleb_bytes(x as int));
    lemma_pow128_bounds(9);
    lemma_sleb_from(s, 0, x as int);
}

} // verus!
