//! The control-message buffer: records of header and data, one after the
//! other, written for a send and read back after a receive.

use crate::abi::{Abi, LenWidth};
use crate::ancillary::UCred;
use crate::wire::{
    capacity, i32_bits, i32_of_bits, lemma_capacity_values, lemma_uint_bytes_len, read_i32,
    read_u32, read_uint, splice, uint_bytes, uint_value, write_i32, write_uint, Endian,
};
use vstd::prelude::*;

verus! {

/// Bytes that one descriptor takes in a descriptor-array record.
pub const FD_WIDTH: usize = 4;

/// Bytes that the process, user and group numbers take in a credential record.
pub const CRED_WIDTH: usize = 12;

/// `n` bytes of zero.
pub open spec fn zeros(n: nat) -> Seq<u8> {
    Seq::new(n, |i: int| 0u8)
}

/// The header of a record of `total` bytes and type `ty`: the length, the
/// socket level, the type.
pub open spec fn header(abi: Abi, total: nat, ty: i32) -> Seq<u8> {
    uint_bytes(abi.order, total, abi.len_width.bytes()) + uint_bytes(
        abi.order,
        i32_bits(abi.sol_socket),
        4,
    ) + uint_bytes(abi.order, i32_bits(ty), 4)
}

/// A whole record of type `ty` around `data`. Its length field counts the
/// header and the data.
pub open spec fn record(abi: Abi, ty: i32, data: Seq<u8>) -> Seq<u8> {
    header(abi, abi.header_len() + data.len(), ty) + data
}

/// Descriptors packed one after the other, four bytes each.
pub open spec fn fds_bytes(order: Endian, fds: Seq<i32>) -> Seq<u8>
    decreases fds.len(),
{
    if fds.len() == 0 {
        Seq::empty()
    } else {
        fds_bytes(order, fds.drop_last()) + uint_bytes(order, i32_bits(fds.last()), 4)
    }
}

/// The descriptor-array record that carries `fds`.
pub open spec fn fd_record(abi: Abi, fds: Seq<i32>) -> Seq<u8> {
    record(abi, abi.scm_rights, fds_bytes(abi.order, fds))
}

/// Whether a record with `data_len` bytes of data can follow `prior` bytes:
/// the buffer stays within what a `Vec` can index, and the record's length
/// can be written in its length field.
pub open spec fn record_fits(abi: Abi, prior: nat, data_len: nat) -> bool {
    &&& prior + abi.header_len() + data_len <= usize::MAX
    &&& abi.header_len() + data_len < capacity(abi.len_width.bytes())
}

/// A header is as long as the conventions say, whatever it states.
pub proof fn lemma_header_len(abi: Abi, total: nat, ty: i32)
    ensures
        header(abi, total, ty).len() == abi.header_len(),
{
    lemma_uint_bytes_len(abi.order, total, abi.len_width.bytes());
    lemma_uint_bytes_len(abi.order, i32_bits(abi.sol_socket), 4);
    lemma_uint_bytes_len(abi.order, i32_bits(ty), 4);
}

/// Packed descriptors take four bytes each.
pub proof fn lemma_fds_bytes_len(order: Endian, fds: Seq<i32>)
    ensures
        fds_bytes(order, fds).len() == 4 * fds.len(),
    decreases fds.len(),
{
    if fds.len() > 0 {
        lemma_fds_bytes_len(order, fds.drop_last());
        lemma_uint_bytes_len(order, i32_bits(fds.last()), 4);
    }
}

/// Three fields written one after the other over the start of a run of
/// zeros leave the fields, then the zeros that they did not reach.
proof fn lemma_fill_header(before: Seq<u8>, a: Seq<u8>, b: Seq<u8>, c: Seq<u8>, rest: nat)
    ensures
        splice(
            splice(
                splice(
                    before + zeros(a.len() + b.len() + c.len() + rest),
                    before.len() as int,
                    a,
                ),
                (before.len() + a.len()) as int,
                b,
            ),
            (before.len() + a.len() + b.len()) as int,
            c,
        ) == before + (a + b + c + zeros(rest)),
{
    let s0 = before + zeros(a.len() + b.len() + c.len() + rest);
    let s1 = splice(s0, before.len() as int, a);
    let s2 = splice(s1, (before.len() + a.len()) as int, b);
    let s3 = splice(s2, (before.len() + a.len() + b.len()) as int, c);
    assert(s1 =~= before + a + zeros(b.len() + c.len() + rest));
    assert(s2 =~= before + a + b + zeros(c.len() + rest));
    assert(s3 =~= before + (a + b + c + zeros(rest)));
}

/// A control-message buffer, with the conventions its records follow.
#[derive(Debug, Eq, PartialEq, Hash)]
pub struct Cmsg {
    buf: Vec<u8>,
    abi: Abi,
}

impl View for Cmsg {
    type V = Seq<u8>;

    closed spec fn view(&self) -> Seq<u8> {
        self.buf@
    }
}

impl Default for Cmsg {
    /// An empty buffer with the conventions of this machine.
    fn default() -> (r: Self)
        ensures
            r@ == Seq::<u8>::empty(),
            r.spec_abi().len_width.bytes() * 8 == usize::BITS,
    {
        Cmsg { buf: Vec::new(), abi: Abi::host() }
    }
}

impl Cmsg {
    /// The conventions that the records follow.
    pub closed spec fn spec_abi(&self) -> Abi {
        self.abi
    }

    /// An empty buffer whose records will follow `abi`.
    pub fn new(abi: Abi) -> (r: Self)
        ensures
            r@ == Seq::<u8>::empty(),
            r.abi() == abi,
    {
        Cmsg { buf: Vec::new(), abi }
    }

    /// A buffer that holds `bytes`, to be read by `abi`.
    pub fn from_bytes(abi: Abi, bytes: Vec<u8>) -> (r: Self)
        ensures
            r@ == bytes@,
            r.abi() == abi,
    {
        Cmsg { buf: bytes, abi }
    }

    /// The conventions that the records follow.
    #[verifier::when_used_as_spec(spec_abi)]
    pub fn abi(&self) -> (r: Abi)
        ensures
            r == self.spec_abi(),
    {
        self.abi
    }

    /// The bytes of the buffer.
    #[inline]
    pub fn as_slice(&self) -> (r: &[u8])
        ensures
            r@ == self@,
    {
        self.buf.as_slice()
    }

    /// The bytes, for the system call to fill. Whatever is written through
    /// the slice is what the buffer holds afterwards.
    #[inline]
    pub fn as_mut_slice(&mut self) -> (r: &mut [u8])
        ensures
            r@ == old(self)@,
            final(self)@ == final(r)@,
            final(self).abi() == old(self).abi(),
    {
        self.buf.as_mut_slice()
    }

    /// Number of bytes in the buffer.
    #[inline]
    pub fn len(&self) -> (r: usize)
        ensures
            r == self@.len(),
    {
        self.buf.len()
    }

    /// Whether a record with room for `t_len` items of `t_size` bytes can be
    /// appended: whether `add` may be called with them.
    pub fn can_add(&self, t_len: usize, t_size: usize) -> (r: bool)
        ensures
            r == record_fits(self.abi(), self@.len(), t_len as nat * t_size as nat),
    {
        proof {
            lemma_capacity_values();
        }
        let header_len: usize = self.abi.header_size();
        match t_len.checked_mul(t_size) {
            None => false,
            Some(data_len) => match header_len.checked_add(data_len) {
                None => false,
                Some(total_len) => match self.buf.len().checked_add(total_len) {
                    None => false,
                    Some(_) => match self.abi.len_width {
                        LenWidth::Four => total_len as u64 <= 0xffff_ffff,
                        LenWidth::Eight => true,
                    },
                },
            },
        }
    }

    /// Appends one record of type `type_` with room for `t_len` items of
    /// `t_size` bytes, all zero, and returns where its data begins.
    pub fn add(&mut self, type_: i32, t_len: usize, t_size: usize) -> (start: usize)
        requires
            record_fits(old(self).abi(), old(self)@.len(), t_len as nat * t_size as nat),
        ensures
            final(self)@ == old(self)@ + record(
                old(self).abi(),
                type_,
                zeros(t_len as nat * t_size as nat),
            ),
            start == old(self)@.len() + old(self).abi().header_len(),
            final(self).abi() == old(self).abi(),
    {
        let abi = self.abi;
        let width: usize = abi.len_width.size();
        let data_len: usize = t_len * t_size;
        let header_len: usize = abi.header_size();
        let total_len: usize = header_len + data_len;
        let base: usize = self.buf.len();
        let ghost before = self.buf@;
        let ghost len_field = uint_bytes(abi.order, total_len as nat, abi.len_width.bytes());
        let ghost level_field = uint_bytes(abi.order, i32_bits(abi.sol_socket), 4);
        let ghost type_field = uint_bytes(abi.order, i32_bits(type_), 4);
        proof {
            lemma_capacity_values();
            lemma_uint_bytes_len(abi.order, total_len as nat, abi.len_width.bytes());
            lemma_uint_bytes_len(abi.order, i32_bits(abi.sol_socket), 4);
            lemma_uint_bytes_len(abi.order, i32_bits(type_), 4);
        }

        self.buf.reserve(total_len);
        self.buf.resize(base + total_len, 0);
        assert(self.buf@ =~= before + zeros(total_len as nat));

        write_uint(abi.order, &mut self.buf, base, total_len as u64, width);
        write_i32(abi.order, &mut self.buf, base + width, abi.sol_socket);
        write_i32(abi.order, &mut self.buf, base + width + 4, type_);

        proof {
            lemma_fill_header(before, len_field, level_field, type_field, data_len as nat);
        }
        base + header_len
    }

    /// Appends a descriptor-array record that holds the values of `data`,
    /// in order. The values are copied: nothing is closed or handed over.
    pub fn add_fds_raw(&mut self, data: &[i32])
        requires
            record_fits(old(self).abi(), old(self)@.len(), 4 * data@.len()),
        ensures
            final(self)@ == old(self)@ + fd_record(old(self).abi(), data@),
            final(self).abi() == old(self).abi(),
    {
        let abi = self.abi;
        let count: usize = data.len();
        let ghost before = self.buf@;
        let ghost head = header(abi, abi.header_len() + 4 * count as nat, abi.scm_rights);
        let start: usize = self.add(abi.scm_rights, count, FD_WIDTH);
        proof {
            lemma_header_len(abi, abi.header_len() + 4 * count as nat, abi.scm_rights);
            assert(data@.take(0) =~= Seq::<i32>::empty());
            assert(self.buf@ =~= before + head + fds_bytes(abi.order, data@.take(0)) + zeros(
                4 * count as nat,
            ));
        }
        let mut i: usize = 0;
        while i < count
            invariant
                i <= count,
                count == data@.len(),
                self.abi == abi,
                head.len() == abi.header_len(),
                start == before.len() + abi.header_len(),
                start + 4 * count <= usize::MAX,
                self.buf@ == before + head + fds_bytes(abi.order, data@.take(i as int)) + zeros(
                    (4 * (count - i)) as nat,
                ),
            decreases count - i,
        {
            let ghost done = data@.take(i as int);
            let ghost piece = uint_bytes(abi.order, i32_bits(data@[i as int]), 4);
            proof {
                lemma_fds_bytes_len(abi.order, done);
                lemma_uint_bytes_len(abi.order, i32_bits(data@[i as int]), 4);
            }
            write_i32(abi.order, &mut self.buf, start + 4 * i, data[i]);
            i = i + 1;
            proof {
                assert(data@.take(i as int).drop_last() =~= done);
                assert(data@.take(i as int).last() == data@[i - 1]);
                assert(fds_bytes(abi.order, data@.take(i as int)) == fds_bytes(abi.order, done)
                    + piece);
                assert(self.buf@ =~= before + head + fds_bytes(abi.order, data@.take(i as int))
                    + zeros((4 * (count - i)) as nat));
            }
        }
        proof {
            assert(data@.take(count as int) =~= data@);
            lemma_fds_bytes_len(abi.order, data@);
            assert(self.buf@ =~= before + fd_record(abi, data@));
        }
    }

    /// Appends a descriptor-array record with `len` slots, all zero: room
    /// for up to `len` descriptors to be received.
    pub fn empty_fds(&mut self, len: usize)
        requires
            record_fits(old(self).abi(), old(self)@.len(), 4 * len as nat),
        ensures
            final(self)@ == old(self)@ + record(
                old(self).abi(),
                old(self).abi().scm_rights,
                zeros(4 * len as nat),
            ),
            final(self).abi() == old(self).abi(),
    {
        let abi = self.abi;
        let _ = self.add(abi.scm_rights, len, FD_WIDTH);
    }
}

/// What a decoded record carries.
pub enum Record {
    /// The descriptors of a descriptor-array record, in order.
    Fd(Seq<i32>),
    /// The identity that a credential record names.
    Cred(UCred),
}

/// One decoded record.
#[derive(Debug, Eq, PartialEq)]
pub enum CmsgData {
    Fd(Vec<i32>),
    Cred(UCred),
}

impl View for CmsgData {
    type V = Record;

    open spec fn view(&self) -> Record {
        match self {
            CmsgData::Fd(fds) => Record::Fd(fds@),
            CmsgData::Cred(cred) => Record::Cred(*cred),
        }
    }
}

/// The buffer does not hold whole records: bytes are left that are too few
/// for a header, or a header states a length that its record cannot have.
#[derive(Clone, Copy, Debug, Eq, PartialEq, Hash, Structural)]
pub struct Malformed;

/// The unsigned field of `n` bytes at `at`.
pub open spec fn uint_at(abi: Abi, bytes: Seq<u8>, at: int, n: nat) -> nat {
    uint_value(abi.order, bytes.subrange(at, at + n))
}

/// The signed 32-bit field at `at`.
pub open spec fn i32_at(abi: Abi, bytes: Seq<u8>, at: int) -> i32 {
    i32_of_bits(uint_at(abi, bytes, at, 4))
}

/// The length that the header at `pos` states.
pub open spec fn record_len(abi: Abi, bytes: Seq<u8>, pos: int) -> nat {
    uint_at(abi, bytes, pos, abi.len_width.bytes())
}

/// The protocol level that the header at `pos` states.
pub open spec fn record_level(abi: Abi, bytes: Seq<u8>, pos: int) -> i32 {
    i32_at(abi, bytes, pos + abi.len_width.bytes())
}

/// The record type that the header at `pos` states.
pub open spec fn record_type(abi: Abi, bytes: Seq<u8>, pos: int) -> i32 {
    i32_at(abi, bytes, pos + abi.len_width.bytes() + 4)
}

/// The `n` descriptors packed from `at` on.
pub open spec fn fds_at(abi: Abi, bytes: Seq<u8>, at: int, n: nat) -> Seq<i32> {
    Seq::new(n, |i: int| i32_at(abi, bytes, at + 4 * i))
}

/// The process, user and group numbers packed from `at` on.
pub open spec fn cred_at(abi: Abi, bytes: Seq<u8>, at: int) -> UCred {
    UCred {
        pid: i32_at(abi, bytes, at),
        uid: uint_at(abi, bytes, at + 4, 4) as u32,
        gid: uint_at(abi, bytes, at + 8, 4) as u32,
    }
}

/// What the decoder finds with its cursor at `pos`.
pub enum Step {
    /// The cursor is at or past the end: nothing is left.
    End,
    /// What is left is no whole record.
    Malformed,
    /// A record of another level or type; the cursor moves past it.
    Skip { next: nat },
    /// A record to hand out; the cursor moves past it.
    Emit { record: Record, next: nat },
}

/// One step of decoding. A record's stated length must cover its header and
/// end within the buffer, whatever its type; the cursor then moves by that
/// length. Descriptors are the whole four-byte groups of the data; a
/// credential record needs its twelve bytes.
pub open spec fn step(abi: Abi, bytes: Seq<u8>, pos: nat) -> Step {
    let left = bytes.len() - pos;
    let len = record_len(abi, bytes, pos as int);
    let data = pos + abi.header_len();
    let data_len = len - abi.header_len();
    if pos >= bytes.len() {
        Step::End
    } else if left < abi.header_len() || len < abi.header_len() || len > left {
        Step::Malformed
    } else if record_level(abi, bytes, pos as int) != abi.sol_socket {
        Step::Skip { next: pos + len }
    } else if record_type(abi, bytes, pos as int) == abi.scm_rights {
        Step::Emit {
            record: Record::Fd(fds_at(abi, bytes, data as int, (data_len / 4) as nat)),
            next: pos + len,
        }
    } else if record_type(abi, bytes, pos as int) == abi.scm_credentials {
        if data_len < 12 {
            Step::Malformed
        } else {
            Step::Emit { record: Record::Cred(cred_at(abi, bytes, data as int)), next: pos + len }
        }
    } else {
        Step::Skip { next: pos + len }
    }
}

/// Where the cursor comes to rest from `pos`: past every record that is
/// skipped, at the first place where something else is found.
pub open spec fn settle(abi: Abi, bytes: Seq<u8>, pos: nat) -> nat
    decreases bytes.len() - pos,
{
    match step(abi, bytes, pos) {
        Step::Skip { next } => settle(abi, bytes, next),
        _ => pos,
    }
}

/// Every record that decoding hands out from `pos` on, in order, or `None`
/// if it runs into something malformed on the way.
pub open spec fn records_from(abi: Abi, bytes: Seq<u8>, pos: nat) -> Option<Seq<Record>>
    decreases bytes.len() - pos,
{
    match step(abi, bytes, pos) {
        Step::End => Some(Seq::empty()),
        Step::Malformed => None,
        Step::Skip { next } => records_from(abi, bytes, next),
        Step::Emit { record, next } => match records_from(abi, bytes, next) {
            Some(rest) => Some(seq![record] + rest),
            None => None,
        },
    }
}

/// Every record of the buffer `bytes`.
pub open spec fn records(abi: Abi, bytes: Seq<u8>) -> Option<Seq<Record>> {
    records_from(abi, bytes, 0)
}

/// A cursor over the records of a buffer.
pub struct CmsgIter<'a> {
    cmsg: &'a Cmsg,
    pos: usize,
}

impl Cmsg {
    /// A cursor at the buffer's first byte.
    pub fn iter<'a>(&'a self) -> (r: CmsgIter<'a>)
        ensures
            r.source() == self,
            r.position() == 0,
    {
        CmsgIter { cmsg: self, pos: 0 }
    }
}

impl<'a> CmsgIter<'a> {
    /// The buffer that is read.
    pub closed spec fn source(&self) -> &'a Cmsg {
        self.cmsg
    }

    /// Where the cursor stands.
    pub closed spec fn position(&self) -> nat {
        self.pos as nat
    }

    /// Reads the `count` descriptors packed from `at` on.
    fn read_fds(&self, at: usize, count: usize) -> (fds: Vec<i32>)
        requires
            at + 4 * count <= self.cmsg@.len(),
        ensures
            fds@ == fds_at(self.cmsg.abi(), self.cmsg@, at as int, count as nat),
    {
        let abi = self.cmsg.abi();
        let buf = self.cmsg.as_slice();
        let mut fds: Vec<i32> = Vec::with_capacity(count);
        let mut i: usize = 0;
        while i < count
            invariant
                i <= count,
                at + 4 * count <= buf.len(),
                buf@ == self.cmsg@,
                abi == self.cmsg.abi(),
                fds@ == fds_at(abi, buf@, at as int, i as nat),
            decreases count - i,
        {
            let fd: i32 = read_i32(abi.order, buf, at + 4 * i);
            fds.push(fd);
            i = i + 1;
            assert(fds@ =~= fds_at(abi, buf@, at as int, i as nat));
        }
        fds
    }

    /// Hands out the next record, or `None` when the cursor has reached the
    /// end. Records of another level or type are passed over. At something
    /// malformed the cursor stays, and every later call reports it again.
    pub fn next(&mut self) -> (r: Option<Result<CmsgData, Malformed>>)
        ensures
            final(self).source() == old(self).source(),
            ({
                let abi = old(self).source().abi();
                let bytes = old(self).source()@;
                let at = settle(abi, bytes, old(self).position());
                match step(abi, bytes, at) {
                    Step::End => r is None && final(self).position() == at,
                    Step::Malformed => r == Some(Err::<CmsgData, Malformed>(Malformed))
                        && final(self).position() == at,
                    Step::Emit { record, next } => {
                        &&& r matches Some(Ok(data))
                        &&& data@ == record
                        &&& final(self).position() == next
                    },
                    Step::Skip { next } => false,
                }
            }),
    {
        let abi = self.cmsg.abi();
        let buf = self.cmsg.as_slice();
        let total: usize = buf.len();
        let header_len: usize = abi.header_size();
        let width: usize = abi.len_width.size();
        loop
            invariant
                self.cmsg == old(self).cmsg,
                buf@ == self.cmsg@,
                total == buf@.len(),
                abi == self.cmsg.abi(),
                header_len == abi.header_len(),
                width == abi.len_width.bytes(),
                settle(abi, buf@, self.pos as nat) == settle(abi, buf@, old(self).pos as nat),
            decreases total - self.pos,
        {
            let pos: usize = self.pos;
            if pos >= total {
                return None;
            }
            let left: usize = total - pos;
            if left < header_len {
                return Some(Err(Malformed));
            }
            let stated: u64 = read_uint(abi.order, buf, pos, width);
            if stated < header_len as u64 || stated > left as u64 {
                return Some(Err(Malformed));
            }
            let len: usize = stated as usize;
            let level: i32 = read_i32(abi.order, buf, pos + width);
            let type_: i32 = read_i32(abi.order, buf, pos + width + 4);
            let data_len: usize = len - header_len;
            if level == abi.sol_socket && type_ == abi.scm_rights {
                let fds = self.read_fds(pos + header_len, data_len / FD_WIDTH);
                self.pos = pos + len;
                return Some(Ok(CmsgData::Fd(fds)));
            } else if level == abi.sol_socket && type_ == abi.scm_credentials {
                if data_len < CRED_WIDTH {
                    return Some(Err(Malformed));
                }
                let at: usize = pos + header_len;
                let cred = UCred {
                    pid: read_i32(abi.order, buf, at),
                    uid: read_u32(abi.order, buf, at + 4),
                    gid: read_u32(abi.order, buf, at + 8),
                };
                self.pos = pos + len;
                return Some(Ok(CmsgData::Cred(cred)));
            } else {
                self.pos = pos + len;
            }
        }
    }
}

} // verus!
