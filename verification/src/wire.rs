//! Unsigned integers as byte strings, in either byte order.
//!
//! The specification functions say what a field of `n` bytes holds; the
//! executable readers and writers are `byteorder`'s, believed to agree
//! with them.

use byteorder::{BigEndian, ByteOrder, LittleEndian};
use vstd::prelude::*;

verus! {

/// The order in which the bytes of an integer field are laid out.
#[derive(Clone, Copy, Debug, PartialEq, Eq, Hash, Structural)]
pub enum Endian {
    Little,
    Big,
}

/// Number of values an unsigned field of `n` bytes can hold: 256 to the `n`.
pub open spec fn capacity(n: nat) -> nat
    decreases n,
{
    if n == 0 {
        1
    } else {
        256 * capacity((n - 1) as nat)
    }
}

/// The number whose digits, base 256 and least significant first, are `b`.
pub open spec fn le_value(b: Seq<u8>) -> nat
    decreases b.len(),
{
    if b.len() == 0 {
        0
    } else {
        b[0] as nat + 256 * le_value(b.drop_first())
    }
}

/// The number whose digits, base 256 and most significant first, are `b`.
pub open spec fn be_value(b: Seq<u8>) -> nat
    decreases b.len(),
{
    if b.len() == 0 {
        0
    } else {
        256 * be_value(b.drop_last()) + b.last() as nat
    }
}

/// The `n` low digits of `v`, base 256, least significant first.
pub open spec fn le_bytes(v: nat, n: nat) -> Seq<u8>
    decreases n,
{
    if n == 0 {
        Seq::empty()
    } else {
        seq![(v % 256) as u8] + le_bytes(v / 256, (n - 1) as nat)
    }
}

/// The `n` low digits of `v`, base 256, most significant first.
pub open spec fn be_bytes(v: nat, n: nat) -> Seq<u8>
    decreases n,
{
    if n == 0 {
        Seq::empty()
    } else {
        be_bytes(v / 256, (n - 1) as nat).push((v % 256) as u8)
    }
}

/// What an unsigned field with the bytes `b` holds.
pub open spec fn uint_value(order: Endian, b: Seq<u8>) -> nat {
    match order {
        Endian::Little => le_value(b),
        Endian::Big => be_value(b),
    }
}

/// The bytes of an unsigned field of `n` bytes that holds `v`.
pub open spec fn uint_bytes(order: Endian, v: nat, n: nat) -> Seq<u8> {
    match order {
        Endian::Little => le_bytes(v, n),
        Endian::Big => be_bytes(v, n),
    }
}

/// The 32 bits of `x` in two's complement, as a number.
pub open spec fn i32_bits(x: i32) -> nat {
    if x >= 0 {
        x as nat
    } else {
        (x + 0x1_0000_0000) as nat
    }
}

/// The signed number whose two's complement is the low 32 bits `v`.
pub open spec fn i32_of_bits(v: nat) -> i32 {
    if v < 0x8000_0000 {
        v as i32
    } else {
        (v - 0x1_0000_0000) as i32
    }
}

/// `s` with the bytes from `at` on overwritten by `piece`.
pub open spec fn splice(s: Seq<u8>, at: int, piece: Seq<u8>) -> Seq<u8> {
    s.subrange(0, at) + piece + s.subrange(at + piece.len(), s.len() as int)
}

/// The capacities of the field widths in use.
pub proof fn lemma_capacity_values()
    ensures
        capacity(1) == 0x100,
        capacity(2) == 0x1_0000,
        capacity(4) == 0x1_0000_0000,
        capacity(8) == 0x1_0000_0000_0000_0000,
{
    reveal_with_fuel(capacity, 9);
}

/// A field of `n` bytes has `n` bytes.
pub proof fn lemma_uint_bytes_len(order: Endian, v: nat, n: nat)
    ensures
        uint_bytes(order, v, n).len() == n,
    decreases n,
{
    if n > 0 {
        lemma_uint_bytes_len(order, v / 256, (n - 1) as nat);
    }
}

/// A field of `b.len()` bytes holds less than its capacity.
pub proof fn lemma_uint_value_bound(order: Endian, b: Seq<u8>)
    ensures
        uint_value(order, b) < capacity(b.len()),
    decreases b.len(),
{
    if b.len() > 0 {
        match order {
            Endian::Little => lemma_uint_value_bound(order, b.drop_first()),
            Endian::Big => lemma_uint_value_bound(order, b.drop_last()),
        }
    }
}

/// Writing a number that fits and reading the field again gives the number.
pub proof fn lemma_uint_round_trip(order: Endian, v: nat, n: nat)
    requires
        v < capacity(n),
    ensures
        uint_value(order, uint_bytes(order, v, n)) == v,
    decreases n,
{
    if n > 0 {
        let rest = uint_bytes(order, v / 256, (n - 1) as nat);
        let all = uint_bytes(order, v, n);
        match order {
            Endian::Little => {
                assert(all.drop_first() =~= rest);
            },
            Endian::Big => {
                assert(all.drop_last() =~= rest);
            },
        }
        lemma_uint_round_trip(order, v / 256, (n - 1) as nat);
    }
}

/// Two's complement loses nothing: the bits of `x` give `x` back.
pub proof fn lemma_i32_round_trip(x: i32)
    ensures
        i32_bits(x) < 0x1_0000_0000,
        i32_of_bits(i32_bits(x)) == x,
{
}

/// `byteorder::LittleEndian::read_uint`: the first `nbytes` bytes of `buf`,
/// read as one unsigned number, least significant byte first. It panics
/// unless `1 <= nbytes <= 8` and `buf` has that many bytes.
#[verifier::external_body]
fn le_read_uint(buf: &[u8], nbytes: usize) -> (r: u64)
    requires
        1 <= nbytes <= 8,
        nbytes <= buf@.len(),
    ensures
        r as nat == le_value(buf@.subrange(0, nbytes as int)),
{
    LittleEndian::read_uint(buf, nbytes)
}

/// `byteorder::BigEndian::read_uint`: the first `nbytes` bytes of `buf`,
/// read as one unsigned number, most significant byte first. It panics
/// unless `1 <= nbytes <= 8` and `buf` has that many bytes.
#[verifier::external_body]
fn be_read_uint(buf: &[u8], nbytes: usize) -> (r: u64)
    requires
        1 <= nbytes <= 8,
        nbytes <= buf@.len(),
    ensures
        r as nat == be_value(buf@.subrange(0, nbytes as int)),
{
    BigEndian::read_uint(buf, nbytes)
}

/// `byteorder::LittleEndian::write_uint` on the part of `buf` that starts at
/// `at`: it overwrites `nbytes` bytes there with `n`, least significant byte
/// first, and leaves every other byte as it was. It panics unless `n` fits in
/// `nbytes <= 8` bytes and the part has that many.
#[verifier::external_body]
fn le_write_uint(buf: &mut Vec<u8>, at: usize, n: u64, nbytes: usize)
    requires
        1 <= nbytes <= 8,
        at + nbytes <= old(buf)@.len(),
        (n as nat) < capacity(nbytes as nat),
    ensures
        final(buf)@ == splice(old(buf)@, at as int, le_bytes(n as nat, nbytes as nat)),
{
    LittleEndian::write_uint(&mut buf[at..], n, nbytes);
}

/// `byteorder::BigEndian::write_uint` on the part of `buf` that starts at
/// `at`: it overwrites `nbytes` bytes there with `n`, most significant byte
/// first, and leaves every other byte as it was. It panics unless `n` fits in
/// `nbytes <= 8` bytes and the part has that many.
#[verifier::external_body]
fn be_write_uint(buf: &mut Vec<u8>, at: usize, n: u64, nbytes: usize)
    requires
        1 <= nbytes <= 8,
        at + nbytes <= old(buf)@.len(),
        (n as nat) < capacity(nbytes as nat),
    ensures
        final(buf)@ == splice(old(buf)@, at as int, be_bytes(n as nat, nbytes as nat)),
{
    BigEndian::write_uint(&mut buf[at..], n, nbytes);
}

/// Reads the unsigned field of `nbytes` bytes that starts at `at`.
pub fn read_uint(order: Endian, buf: &[u8], at: usize, nbytes: usize) -> (r: u64)
    requires
        1 <= nbytes <= 8,
        at + nbytes <= buf.len(),
    ensures
        r as nat == uint_value(order, buf@.subrange(at as int, at + nbytes)),
{
    let field = vstd::slice::slice_subrange(buf, at, at + nbytes);
    assert(field@.subrange(0, nbytes as int) =~= field@);
    match order {
        Endian::Little => le_read_uint(field, nbytes),
        Endian::Big => be_read_uint(field, nbytes),
    }
}

/// Reads the signed 32-bit field that starts at `at`.
pub fn read_i32(order: Endian, buf: &[u8], at: usize) -> (r: i32)
    requires
        at + 4 <= buf.len(),
    ensures
        r == i32_of_bits(uint_value(order, buf@.subrange(at as int, at + 4))),
{
    let bits: u64 = read_uint(order, buf, at, 4);
    proof {
        lemma_uint_value_bound(order, buf@.subrange(at as int, at + 4));
        lemma_capacity_values();
    }
    if bits < 0x8000_0000 {
        bits as i32
    } else {
        let low: i32 = (bits - 0x8000_0000) as i32;
        low + i32::MIN
    }
}

/// Reads the unsigned 32-bit field that starts at `at`.
pub fn read_u32(order: Endian, buf: &[u8], at: usize) -> (r: u32)
    requires
        at + 4 <= buf.len(),
    ensures
        r as nat == uint_value(order, buf@.subrange(at as int, at + 4)),
{
    let bits: u64 = read_uint(order, buf, at, 4);
    proof {
        lemma_uint_value_bound(order, buf@.subrange(at as int, at + 4));
        lemma_capacity_values();
    }
    bits as u32
}

/// Overwrites the `nbytes` bytes that start at `at` with the field for `n`.
pub fn write_uint(order: Endian, buf: &mut Vec<u8>, at: usize, n: u64, nbytes: usize)
    requires
        1 <= nbytes <= 8,
        at + nbytes <= old(buf)@.len(),
        (n as nat) < capacity(nbytes as nat),
    ensures
        final(buf)@ == splice(old(buf)@, at as int, uint_bytes(order, n as nat, nbytes as nat)),
{
    match order {
        Endian::Little => le_write_uint(buf, at, n, nbytes),
        Endian::Big => be_write_uint(buf, at, n, nbytes),
    }
}

/// Overwrites the four bytes that start at `at` with the field for `x`.
pub fn write_i32(order: Endian, buf: &mut Vec<u8>, at: usize, x: i32)
    requires
        at + 4 <= old(buf)@.len(),
    ensures
        final(buf)@ == splice(old(buf)@, at as int, uint_bytes(order, i32_bits(x), 4)),
{
    let bits: u64 = if x >= 0 {
        x as u64
    } else {
        let low: i32 = x - i32::MIN;
        low as u64 + 0x8000_0000
    };
    proof {
        lemma_capacity_values();
    }
    write_uint(order, buf, at, bits, 4);
}

} // verus!
