//! Fixed-offset reads from raw account data.

use crate::pubkey::{key_of, law_address_is_its_bytes, Pubkey};
use vstd::arithmetic::div_mod::{
    lemma_div_denominator, lemma_hoist_over_denominator, lemma_mod_multiples_vanish,
};
use vstd::arithmetic::power::{lemma_pow0, lemma_pow_adds, lemma_pow_positive, pow};
use vstd::prelude::*;

verus! {

/// Why account data is not what it should be.
#[derive(Clone, Copy, PartialEq, Eq, Structural, Debug)]
pub enum LayoutError {
    /// A field of `width` bytes at `off` lies past the end of `len` bytes.
    Short { off: usize, width: usize, len: usize },
    /// Cumulative interest outside of 0.5 to 100.
    ImplausibleInterest { deposit: u128, borrow: u128 },
    /// More decimals than a token has.
    DecimalsOutOfRange { decimals: u64 },
    /// A market price outside of a millionth of a dollar to a million dollars.
    ImplausiblePrice { raw: u128 },
    /// The layout of these accounts has not been verified yet.
    Unverified,
}

/// 256 to the power `n`: one more than the largest number of `n` bytes.
pub open spec fn byte_cap(n: nat) -> nat
    decreases n,
{
    if n == 0 {
        1
    } else {
        256 * byte_cap((n - 1) as nat)
    }
}

/// The number that little-endian bytes stand for.
pub open spec fn le_value(s: Seq<u8>) -> nat
    decreases s.len(),
{
    if s.len() == 0 {
        0
    } else {
        s[0] as nat + 256 * le_value(s.skip(1))
    }
}

/// The number that the bits of an unsigned `v` below `modulus` stand for in
/// two's complement.
pub open spec fn twos(v: nat, modulus: int) -> int {
    if v < modulus / 2 {
        v as int
    } else {
        v - modulus
    }
}

/// Whether `width` bytes from `off` on lie inside the data.
pub open spec fn holds(data: Seq<u8>, off: int, width: int) -> bool {
    0 <= off && off + width <= data.len()
}

/// The `width` bytes from `off` on.
pub open spec fn field(data: Seq<u8>, off: int, width: int) -> Seq<u8> {
    data.subrange(off, off + width)
}

/// The error for a field that does not lie inside the data.
pub open spec fn short(data: Seq<u8>, off: int, width: int) -> LayoutError {
    LayoutError::Short { off: off as usize, width: width as usize, len: data.len() as usize }
}

/// The little-endian number at `off`.
pub open spec fn le_at(data: Seq<u8>, off: int, width: int) -> nat {
    le_value(field(data, off, width))
}

/// The key at `off`.
pub open spec fn key_at(data: Seq<u8>, off: int) -> Pubkey {
    key_of(field(data, off, 32))
}

/// The signed 128-bit number at `off`.
pub open spec fn i128_spec_at(data: Seq<u8>, off: int) -> int {
    twos(le_at(data, off, 16), u128::MAX + 1)
}

pub proof fn lemma_byte_caps()
    ensures
        byte_cap(1) == 0x100,
        byte_cap(2) == 0x1_0000,
        byte_cap(4) == 0x1_0000_0000,
        byte_cap(8) == 0x1_0000_0000_0000_0000,
        byte_cap(16) == u128::MAX + 1,
{
    reveal_with_fuel(byte_cap, 17);
}

pub proof fn lemma_byte_cap_grows(m: nat, n: nat)
    requires
        m <= n,
    ensures
        1 <= byte_cap(m) <= byte_cap(n),
    decreases n,
{
    if m < n {
        lemma_byte_cap_grows(m, (n - 1) as nat);
    } else if n > 0 {
        lemma_byte_cap_grows((m - 1) as nat, (n - 1) as nat);
    }
}

pub proof fn lemma_le_value_fits(s: Seq<u8>)
    ensures
        le_value(s) < byte_cap(s.len()),
    decreases s.len(),
{
    if s.len() > 0 {
        lemma_le_value_fits(s.skip(1));
    }
}

fn le_uint(data: &[u8], off: usize, width: usize) -> (out: u128)
    requires
        width <= 16,
        off + width <= data@.len(),
    ensures
        out as nat == le_at(data@, off as int, width as int),
        out < byte_cap(width as nat),
{
    let len: usize = data.len();
    let mut acc: u128 = 0;
    let mut i: usize = width;
    assert(field(data@, off + width, 0) =~= Seq::<u8>::empty());
    while i > 0
        invariant
            i <= width <= 16,
            off + width <= len == data@.len(),
            acc as nat == le_value(field(data@, off + i, width - i)),
        decreases i,
    {
        let byte: u8 = data[off + (i - 1)];
        proof {
            let tail = field(data@, off + i, width - i);
            let whole = field(data@, off + i - 1, width - i + 1);
            assert(whole.skip(1) =~= tail);
            assert(whole[0] == byte);
            lemma_le_value_fits(tail);
            lemma_byte_cap_grows(tail.len(), 15);
            lemma_byte_caps();
            assert(byte_cap(16) == 256 * byte_cap(15)) by {
                reveal_with_fuel(byte_cap, 2);
            }
        }
        acc = acc * 256 + byte as u128;
        i = i - 1;
    }
    proof {
        lemma_le_value_fits(field(data@, off as int, width as int));
    }
    acc
}

/// The byte at `off`.
pub fn u8_at(data: &[u8], off: usize) -> (out: Result<u8, LayoutError>)
    ensures
        match out {
            Ok(v) => holds(data@, off as int, 1) && v == data@[off as int],
            Err(e) => !holds(data@, off as int, 1) && e == short(data@, off as int, 1),
        },
{
    if off < data.len() {
        Ok(data[off])
    } else {
        Err(LayoutError::Short { off, width: 1, len: data.len() })
    }
}

/// The unsigned 16-bit little-endian number at `off`.
pub fn u16_at(data: &[u8], off: usize) -> (out: Result<u16, LayoutError>)
    ensures
        match out {
            Ok(v) => holds(data@, off as int, 2) && v == le_at(data@, off as int, 2),
            Err(e) => !holds(data@, off as int, 2) && e == short(data@, off as int, 2),
        },
{
    if data.len() >= 2 && off <= data.len() - 2 {
        proof {
            lemma_byte_caps();
        }
        Ok(le_uint(data, off, 2) as u16)
    } else {
        Err(LayoutError::Short { off, width: 2, len: data.len() })
    }
}

/// The unsigned 32-bit little-endian number at `off`.
pub fn u32_at(data: &[u8], off: usize) -> (out: Result<u32, LayoutError>)
    ensures
        match out {
            Ok(v) => holds(data@, off as int, 4) && v == le_at(data@, off as int, 4),
            Err(e) => !holds(data@, off as int, 4) && e == short(data@, off as int, 4),
        },
{
    if data.len() >= 4 && off <= data.len() - 4 {
        proof {
            lemma_byte_caps();
        }
        Ok(le_uint(data, off, 4) as u32)
    } else {
        Err(LayoutError::Short { off, width: 4, len: data.len() })
    }
}

/// The unsigned 64-bit little-endian number at `off`.
pub fn u64_at(data: &[u8], off: usize) -> (out: Result<u64, LayoutError>)
    ensures
        match out {
            Ok(v) => holds(data@, off as int, 8) && v == le_at(data@, off as int, 8),
            Err(e) => !holds(data@, off as int, 8) && e == short(data@, off as int, 8),
        },
{
    if data.len() >= 8 && off <= data.len() - 8 {
        proof {
            lemma_byte_caps();
        }
        Ok(le_uint(data, off, 8) as u64)
    } else {
        Err(LayoutError::Short { off, width: 8, len: data.len() })
    }
}

/// The unsigned 128-bit little-endian number at `off`.
pub fn u128_at(data: &[u8], off: usize) -> (out: Result<u128, LayoutError>)
    ensures
        match out {
            Ok(v) => holds(data@, off as int, 16) && v == le_at(data@, off as int, 16),
            Err(e) => !holds(data@, off as int, 16) && e == short(data@, off as int, 16),
        },
{
    if data.len() >= 16 && off <= data.len() - 16 {
        Ok(le_uint(data, off, 16))
    } else {
        Err(LayoutError::Short { off, width: 16, len: data.len() })
    }
}

/// The signed 32-bit little-endian number at `off`.
pub fn i32_at(data: &[u8], off: usize) -> (out: Result<i32, LayoutError>)
    ensures
        match out {
            Ok(v) => holds(data@, off as int, 4) && v == twos(
                le_at(data@, off as int, 4),
                0x1_0000_0000,
            ),
            Err(e) => !holds(data@, off as int, 4) && e == short(data@, off as int, 4),
        },
{
    match u32_at(data, off) {
        Ok(v) => {
            if v < 0x8000_0000 {
                Ok(v as i32)
            } else {
                Ok((v as i64 - 0x1_0000_0000) as i32)
            }
        },
        Err(e) => Err(e),
    }
}

/// The signed 64-bit little-endian number at `off`.
pub fn i64_at(data: &[u8], off: usize) -> (out: Result<i64, LayoutError>)
    ensures
        match out {
            Ok(v) => holds(data@, off as int, 8) && v == twos(
                le_at(data@, off as int, 8),
                0x1_0000_0000_0000_0000,
            ),
            Err(e) => !holds(data@, off as int, 8) && e == short(data@, off as int, 8),
        },
{
    match u64_at(data, off) {
        Ok(v) => {
            if v < 0x8000_0000_0000_0000 {
                Ok(v as i64)
            } else {
                Ok((v as i128 - 0x1_0000_0000_0000_0000) as i64)
            }
        },
        Err(e) => Err(e),
    }
}

/// The signed 128-bit little-endian number at `off`.
pub fn i128_at(data: &[u8], off: usize) -> (out: Result<i128, LayoutError>)
    ensures
        match out {
            Ok(v) => holds(data@, off as int, 16) && v == i128_spec_at(data@, off as int),
            Err(e) => !holds(data@, off as int, 16) && e == short(data@, off as int, 16),
        },
{
    match u128_at(data, off) {
        Ok(v) => {
            if v < 0x8000_0000_0000_0000_0000_0000_0000_0000 {
                Ok(v as i128)
            } else {
                let below: u128 = u128::MAX - v;
                Ok(-(below as i128) - 1)
            }
        },
        Err(e) => Err(e),
    }
}

/// The 32-byte key at `off`.
pub fn pubkey_at(data: &[u8], off: usize) -> (out: Result<Pubkey, LayoutError>)
    ensures
        match out {
            Ok(k) => holds(data@, off as int, 32) && k == key_at(data@, off as int) && k.bytes()
                == field(data@, off as int, 32),
            Err(e) => !holds(data@, off as int, 32) && e == short(data@, off as int, 32),
        },
{
    if data.len() >= 32 && off <= data.len() - 32 {
        Ok(Pubkey::read(data, off))
    } else {
        Err(LayoutError::Short { off, width: 32, len: data.len() })
    }
}

/// The eight little-endian bytes of a number.
pub fn u64_bytes(v: u64) -> (out: [u8; 8])
    ensures
        le_value(out@) == v,
{
    let q1: u64 = v / 0x100;
    let q2: u64 = q1 / 0x100;
    let q3: u64 = q2 / 0x100;
    let q4: u64 = q3 / 0x100;
    let q5: u64 = q4 / 0x100;
    let q6: u64 = q5 / 0x100;
    let q7: u64 = q6 / 0x100;
    let out: [u8; 8] = [
        (v % 0x100) as u8,
        (q1 % 0x100) as u8,
        (q2 % 0x100) as u8,
        (q3 % 0x100) as u8,
        (q4 % 0x100) as u8,
        (q5 % 0x100) as u8,
        (q6 % 0x100) as u8,
        q7 as u8,
    ];
    proof {
        lemma_le_value_of_eight(out@);
    }
    out
}

proof fn lemma_le_value_of_eight(s: Seq<u8>)
    requires
        s.len() == 8,
    ensures
        le_value(s) == s[0] + 0x100 * (s[1] + 0x100 * (s[2] + 0x100 * (s[3] + 0x100 * (s[4] + 0x100
            * (s[5] + 0x100 * (s[6] + 0x100 * s[7])))))),
{
    reveal_with_fuel(le_value, 9);
}

/// Whether `width` bytes from `off` on hold `v`, the lowest byte first: a
/// negative number by its two's complement.
pub open spec fn stores(data: Seq<u8>, off: int, width: nat, v: int) -> bool {
    &&& 0 <= off
    &&& off + width <= data.len()
    &&& forall|i: int|
        #![trigger data[off + i]]
        0 <= i < width ==> data[off + i] as int == (v / pow(256, i as nat)) % 256
}

/// Whether the 32 bytes from `off` on are those of `k`.
pub open spec fn stores_key(data: Seq<u8>, off: int, k: Pubkey) -> bool {
    0 <= off && off + 32 <= data.len() && data.subrange(off, off + 32) == k.bytes()
}

proof fn lemma_byte_cap_is_power(n: nat)
    ensures
        byte_cap(n) == pow(256, n),
    decreases n,
{
    reveal(pow);
    if n > 0 {
        lemma_byte_cap_is_power((n - 1) as nat);
    }
}

proof fn lemma_le_value_of_digits(s: Seq<u8>, v: int)
    requires
        0 <= v < pow(256, s.len()),
        forall|i: int|
            0 <= i < s.len() ==> (#[trigger] s[i]) as int == (v / pow(256, i as nat)) % 256,
    ensures
        le_value(s) == v,
    decreases s.len(),
{
    if s.len() == 0 {
        lemma_pow0(256);
    } else {
        let rest = s.skip(1);
        let n = (s.len() - 1) as nat;
        reveal(pow);
        assert(pow(256, s.len()) == 256 * pow(256, n));
        assert(v / 256 < pow(256, n));
        assert forall|i: int| 0 <= i < rest.len() implies (#[trigger] rest[i]) as int == ((v / 256)
            / pow(256, i as nat)) % 256 by {
            lemma_pow_positive(256, i as nat);
            lemma_div_denominator(v, 256, pow(256, i as nat));
            assert(pow(256, (i + 1) as nat) == 256 * pow(256, i as nat));
            assert(rest[i] == s[i + 1]);
        }
        lemma_le_value_of_digits(rest, v / 256);
        lemma_pow0(256);
        assert(s[0] as int == (v / pow(256, 0)) % 256);
        assert(v / 1 == v);
    }
}

/// The number that was stored is the number that is read, unsigned or signed.
pub proof fn law_stored_number_is_read(data: Seq<u8>, off: int, width: nat, v: int)
    requires
        stores(data, off, width, v),
        width > 0,
    ensures
        0 <= v < pow(256, width) ==> le_at(data, off, width as int) == v,
        -pow(256, width) <= 2 * v < pow(256, width) ==> twos(
            le_at(data, off, width as int),
            pow(256, width),
        ) == v,
{
    let s = field(data, off, width as int);
    let cap = pow(256, width);
    assert(cap == 256 * pow(256, (width - 1) as nat)) by {
        reveal(pow);
    }
    assert forall|i: int| 0 <= i < s.len() implies (#[trigger] s[i]) as int == (v / pow(
        256,
        i as nat,
    )) % 256 by {
        assert(s[i] == data[off + i]);
    }
    if 0 <= v < cap {
        lemma_le_value_of_digits(s, v);
    } else if -cap <= 2 * v < 0 {
        let u = v + cap;
        assert forall|i: int| 0 <= i < s.len() implies (#[trigger] s[i]) as int == (u / pow(
            256,
            i as nat,
        )) % 256 by {
            let d = pow(256, i as nat);
            let m = pow(256, (width - i - 1) as nat);
            lemma_pow_positive(256, i as nat);
            lemma_pow_adds(256, i as nat, (width - i) as nat);
            reveal(pow);
            assert(pow(256, (width - i) as nat) == 256 * m);
            assert(cap == (256 * m) * d) by (nonlinear_arith)
                requires
                    cap == d * (256 * m),
            ;
            lemma_hoist_over_denominator(v, 256 * m, d as nat);
            lemma_mod_multiples_vanish(m, v / d, 256);
        }
        lemma_le_value_of_digits(s, u);
    }
}

/// The key that was stored is the key that is read.
pub proof fn law_stored_key_is_read(data: Seq<u8>, off: int, k: Pubkey)
    requires
        stores_key(data, off, k),
    ensures
        key_at(data, off) == k,
{
    law_address_is_its_bytes(k, k);
}

/// The powers of 256 for the widths that accounts use.
pub(crate) proof fn lemma_widths()
    ensures
        pow(256, 1) == 0x100,
        pow(256, 2) == 0x1_0000,
        pow(256, 4) == 0x1_0000_0000,
        pow(256, 8) == 0x1_0000_0000_0000_0000,
        pow(256, 16) == u128::MAX + 1,
{
    lemma_byte_caps();
    lemma_byte_cap_is_power(1);
    lemma_byte_cap_is_power(2);
    lemma_byte_cap_is_power(4);
    lemma_byte_cap_is_power(8);
    lemma_byte_cap_is_power(16);
}

/// An unsigned number of two, four, eight or sixteen bytes is read as stored.
pub(crate) proof fn lemma_reads_unsigned(data: Seq<u8>, off: int, width: nat, v: int)
    requires
        stores(data, off, width, v),
        width == 2 || width == 4 || width == 8 || width == 16,
        0 <= v < pow(256, width),
    ensures
        le_at(data, off, width as int) == v,
        width == 2 ==> v <= u16::MAX,
        width == 4 ==> v <= u32::MAX,
        width == 8 ==> v <= u64::MAX,
        width == 16 ==> v <= u128::MAX,
{
    lemma_widths();
    law_stored_number_is_read(data, off, width, v);
}

/// A signed number of four, eight or sixteen bytes is read as stored.
pub(crate) proof fn lemma_reads_signed(data: Seq<u8>, off: int, v: int)
    ensures
        stores(data, off, 4, v) && i32::MIN <= v <= i32::MAX ==> twos(
            le_at(data, off, 4),
            0x1_0000_0000,
        ) == v,
        stores(data, off, 8, v) && i64::MIN <= v <= i64::MAX ==> twos(
            le_at(data, off, 8),
            0x1_0000_0000_0000_0000,
        ) == v,
        stores(data, off, 16, v) && i128::MIN <= v <= i128::MAX ==> i128_spec_at(data, off) == v,
{
    lemma_widths();
    if stores(data, off, 4, v) {
        law_stored_number_is_read(data, off, 4, v);
    }
    if stores(data, off, 8, v) {
        law_stored_number_is_read(data, off, 8, v);
    }
    if stores(data, off, 16, v) {
        law_stored_number_is_read(data, off, 16, v);
    }
}

proof fn lemma_digits_of_le_value(s: Seq<u8>, i: int)
    requires
        0 <= i < s.len(),
    ensures
        s[i] as int == (le_value(s) as int / pow(256, i as nat)) % 256,
    decreases s.len(),
{
    let rest = s.skip(1);
    let v = le_value(s) as int;
    assert(v / 256 == le_value(rest));
    assert(v % 256 == s[0]);
    lemma_pow0(256);
    if i > 0 {
        lemma_digits_of_le_value(rest, i - 1);
        lemma_pow_positive(256, (i - 1) as nat);
        lemma_div_denominator(v, 256, pow(256, (i - 1) as nat));
        assert(pow(256, i as nat) == 256 * pow(256, (i - 1) as nat)) by {
            reveal(pow);
        }
        assert(rest[i - 1] == s[i]);
    } else {
        assert(v / 1 == v);
    }
}

/// Bytes store the number that is read from them.
pub proof fn law_read_number_is_stored(data: Seq<u8>, off: int, width: nat)
    requires
        0 <= off,
        off + width <= data.len(),
    ensures
        stores(data, off, width, le_at(data, off, width as int) as int),
{
    let s = field(data, off, width as int);
    assert forall|i: int|
        #![trigger data[off + i]]
        0 <= i < width implies data[off + i] as int == (le_at(data, off, width as int) as int / pow(
        256,
        i as nat,
    )) % 256 by {
        lemma_digits_of_le_value(s, i);
        assert(s[i] == data[off + i]);
    }
}

} // verus!
