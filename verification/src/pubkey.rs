//! Account addresses.

use crate::bytes::{byte_cap, field, lemma_byte_cap_grows, lemma_byte_caps};
use vstd::prelude::*;

verus! {

/// A 32-byte account address, held as two 128-bit words with the first byte
/// of the address on top.
#[derive(Clone, Copy, PartialEq, Eq, Structural, Debug)]
pub struct Pubkey {
    pub hi: u128,
    pub lo: u128,
}

/// The number that big-endian bytes stand for.
pub open spec fn be_value(s: Seq<u8>) -> nat
    decreases s.len(),
{
    if s.len() == 0 {
        0
    } else {
        be_value(s.drop_last()) * 256 + s.last() as nat
    }
}

/// The `n` big-endian bytes of `v`.
pub open spec fn be_bytes(v: nat, n: nat) -> Seq<u8>
    decreases n,
{
    if n == 0 {
        Seq::empty()
    } else {
        be_bytes(v / 256, (n - 1) as nat).push((v % 256) as u8)
    }
}

/// The address that 32 bytes make.
pub open spec fn key_of(b: Seq<u8>) -> Pubkey {
    Pubkey { hi: be_value(b.subrange(0, 16)) as u128, lo: be_value(b.subrange(16, 32)) as u128 }
}

/// The all-zero address.
pub open spec fn zero_key() -> Pubkey {
    Pubkey { hi: 0, lo: 0 }
}

proof fn lemma_be_value_fits(s: Seq<u8>)
    ensures
        be_value(s) < byte_cap(s.len()),
    decreases s.len(),
{
    if s.len() > 0 {
        lemma_be_value_fits(s.drop_last());
    }
}

proof fn lemma_be_bytes_of_value(s: Seq<u8>)
    ensures
        be_bytes(be_value(s), s.len()) == s,
    decreases s.len(),
{
    if s.len() == 0 {
        assert(s =~= Seq::<u8>::empty());
    } else {
        let v = be_value(s.drop_last());
        lemma_be_bytes_of_value(s.drop_last());
        assert((v * 256 + s.last() as nat) / 256 == v);
        assert((v * 256 + s.last() as nat) % 256 == s.last() as nat);
        assert(s.drop_last().push(s.last()) =~= s);
    }
}

proof fn lemma_be_value_of_bytes(v: nat, n: nat)
    requires
        v < byte_cap(n),
    ensures
        be_bytes(v, n).len() == n,
        be_value(be_bytes(v, n)) == v,
    decreases n,
{
    if n > 0 {
        lemma_be_value_of_bytes(v / 256, (n - 1) as nat);
        let b = be_bytes(v, n);
        assert(b.drop_last() =~= be_bytes(v / 256, (n - 1) as nat));
    }
}

impl Pubkey {
    /// The 32 bytes of the address.
    pub open spec fn bytes(self) -> Seq<u8> {
        be_bytes(self.hi as nat, 16) + be_bytes(self.lo as nat, 16)
    }

    /// The order of the addresses as 256-bit numbers.
    pub open spec fn below(self, other: Pubkey) -> bool {
        self.hi < other.hi || (self.hi == other.hi && self.lo < other.lo)
    }

    pub fn less_than(self, other: Pubkey) -> (out: bool)
        ensures
            out == self.below(other),
    {
        self.hi < other.hi || (self.hi == other.hi && self.lo < other.lo)
    }

    /// Reads the address at `off`.
    pub(crate) fn read(data: &[u8], off: usize) -> (out: Pubkey)
        requires
            off + 32 <= data@.len(),
        ensures
            out == key_of(field(data@, off as int, 32)),
            out.bytes() == field(data@, off as int, 32),
    {
        let len: usize = data.len();
        let hi: u128 = word_at(data, off);
        assert(off + 16 <= len);
        let lo: u128 = word_at(data, off + 16);
        proof {
            let b = field(data@, off as int, 32);
            assert(b.subrange(0, 16) =~= field(data@, off as int, 16));
            assert(b.subrange(16, 32) =~= field(data@, off + 16, 16));
            lemma_be_bytes_of_value(b.subrange(0, 16));
            lemma_be_bytes_of_value(b.subrange(16, 32));
            assert(b.subrange(0, 16) + b.subrange(16, 32) =~= b);
        }
        Pubkey { hi, lo }
    }

    /// The address with the given 32 bytes.
    pub fn from_bytes(bytes: &[u8]) -> (out: Pubkey)
        requires
            bytes@.len() == 32,
        ensures
            out == key_of(bytes@),
            out.bytes() == bytes@,
    {
        assert(field(bytes@, 0, 32) =~= bytes@);
        Pubkey::read(bytes, 0)
    }

    /// The 32 bytes of the address.
    pub fn to_bytes(&self) -> (out: Vec<u8>)
        ensures
            out@ == self.bytes(),
            out@.len() == 32,
    {
        let mut out: Vec<u8> = Vec::with_capacity(32);
        push_word(&mut out, self.hi);
        push_word(&mut out, self.lo);
        proof {
            lemma_byte_caps();
            lemma_be_value_of_bytes(self.hi as nat, 16);
            lemma_be_value_of_bytes(self.lo as nat, 16);
        }
        out
    }
}

impl Default for Pubkey {
    fn default() -> (out: Pubkey)
        ensures
            out == zero_key(),
    {
        Pubkey { hi: 0, lo: 0 }
    }
}

fn word_at(data: &[u8], off: usize) -> (out: u128)
    requires
        off + 16 <= data@.len(),
    ensures
        out as nat == be_value(field(data@, off as int, 16)),
{
    let len: usize = data.len();
    let mut acc: u128 = 0;
    let mut i: usize = 0;
    assert(field(data@, off as int, 0) =~= Seq::<u8>::empty());
    while i < 16
        invariant
            i <= 16,
            off + 16 <= len == data@.len(),
            acc as nat == be_value(field(data@, off as int, i as int)),
        decreases 16 - i,
    {
        let byte: u8 = data[off + i];
        proof {
            let head = field(data@, off as int, i as int);
            let next = field(data@, off as int, i + 1);
            assert(next.drop_last() =~= head);
            lemma_be_value_fits(head);
            lemma_byte_cap_grows(i as nat, 15);
            lemma_byte_caps();
            assert(byte_cap(16) == 256 * byte_cap(15)) by {
                reveal_with_fuel(byte_cap, 2);
            }
        }
        acc = acc * 256 + byte as u128;
        i = i + 1;
    }
    acc
}

proof fn lemma_be_bytes_step(v: nat, n: nat)
    ensures
        be_bytes(v, n + 1) == seq![((v / byte_cap(n)) % 256) as u8] + be_bytes(v, n),
    decreases n,
{
    if n == 0 {
        reveal_with_fuel(be_bytes, 2);
        assert(be_bytes(v, 1) =~= seq![((v / 1) % 256) as u8] + be_bytes(v, 0));
    } else {
        lemma_be_bytes_step(v / 256, (n - 1) as nat);
        lemma_byte_cap_grows(0, (n - 1) as nat);
        vstd::arithmetic::div_mod::lemma_div_denominator(
            v as int,
            256,
            byte_cap((n - 1) as nat) as int,
        );
        assert(be_bytes(v, n + 1) =~= seq![((v / byte_cap(n)) % 256) as u8] + be_bytes(v, n));
    }
}

fn push_word(out: &mut Vec<u8>, word: u128)
    ensures
        final(out)@ == old(out)@ + be_bytes(word as nat, 16),
{
    let mut i: usize = 16;
    let mut cap: u128 = 0x100_0000_0000_0000_0000_0000_0000_0000;
    proof {
        lemma_byte_caps();
        assert(byte_cap(16) == 256 * byte_cap(15)) by {
            reveal_with_fuel(byte_cap, 2);
        }
    }
    while i > 0
        invariant
            i <= 16,
            i > 0 ==> cap as nat == byte_cap((i - 1) as nat),
            out@ + be_bytes(word as nat, i as nat) == old(out)@ + be_bytes(word as nat, 16),
        decreases i,
    {
        proof {
            lemma_byte_cap_grows(0, (i - 1) as nat);
            lemma_be_bytes_step(word as nat, (i - 1) as nat);
        }
        let byte: u8 = ((word / cap) % 256) as u8;
        let ghost before = out@;
        out.push(byte);
        proof {
            assert(before + be_bytes(word as nat, i as nat) =~= out@ + be_bytes(
                word as nat,
                (i - 1) as nat,
            ));
            if i > 1 {
                assert(byte_cap((i - 1) as nat) == 256 * byte_cap((i - 2) as nat));
            }
        }
        cap = cap / 256;
        i = i - 1;
    }
    assert(out@ + be_bytes(word as nat, 0) =~= out@);
}

/// An address is its bytes: two addresses with the same bytes are the same.
pub proof fn law_address_is_its_bytes(a: Pubkey, b: Pubkey)
    ensures
        a.bytes() == b.bytes() ==> a == b,
        key_of(a.bytes()) == a,
{
    lemma_byte_caps();
    lemma_be_value_of_bytes(a.hi as nat, 16);
    lemma_be_value_of_bytes(a.lo as nat, 16);
    lemma_be_value_of_bytes(b.hi as nat, 16);
    lemma_be_value_of_bytes(b.lo as nat, 16);
    assert(a.bytes().subrange(0, 16) =~= be_bytes(a.hi as nat, 16));
    assert(a.bytes().subrange(16, 32) =~= be_bytes(a.lo as nat, 16));
    assert(b.bytes().subrange(0, 16) =~= be_bytes(b.hi as nat, 16));
    assert(b.bytes().subrange(16, 32) =~= be_bytes(b.lo as nat, 16));
}

proof fn lemma_zero_bytes(n: nat)
    ensures
        be_bytes(0, n) == Seq::new(n, |i: int| 0u8),
    decreases n,
{
    if n > 0 {
        lemma_zero_bytes((n - 1) as nat);
    }
    assert(be_bytes(0, n) =~= Seq::new(n, |i: int| 0u8));
}

/// The all-zero address has 32 bytes that are zero.
pub proof fn law_zero_key_has_zero_bytes()
    ensures
        zero_key().bytes() == Seq::new(32, |i: int| 0u8),
{
    lemma_zero_bytes(16);
    assert(zero_key().bytes() =~= Seq::new(32, |i: int| 0u8));
}

/// Addresses are in the order of the numbers that their bytes make, the first
/// byte being the highest.
pub proof fn law_addresses_are_ordered_as_numbers(a: Pubkey, b: Pubkey)
    ensures
        a.below(b) <==> be_value(a.bytes().subrange(0, 16)) * (u128::MAX + 1) + be_value(
            a.bytes().subrange(16, 32),
        ) < be_value(b.bytes().subrange(0, 16)) * (u128::MAX + 1) + be_value(
            b.bytes().subrange(16, 32),
        ),
{
    lemma_byte_caps();
    lemma_be_value_of_bytes(a.hi as nat, 16);
    lemma_be_value_of_bytes(a.lo as nat, 16);
    lemma_be_value_of_bytes(b.hi as nat, 16);
    lemma_be_value_of_bytes(b.lo as nat, 16);
    assert(a.bytes().subrange(0, 16) =~= be_bytes(a.hi as nat, 16));
    assert(a.bytes().subrange(16, 32) =~= be_bytes(a.lo as nat, 16));
    assert(b.bytes().subrange(0, 16) =~= be_bytes(b.hi as nat, 16));
    assert(b.bytes().subrange(16, 32) =~= be_bytes(b.lo as nat, 16));
}

} // verus!
