//! What holds of encoding and decoding together, under every set of
//! conventions.

use crate::abi::Abi;
use crate::cmsg::{
    fd_record, fds_at, fds_bytes, header, i32_at, lemma_fds_bytes_len, lemma_header_len, record,
    record_len, record_level, record_type, records, records_from, step, zeros, Record, Step,
};
use crate::stream::{all_fds, last_cred};
use crate::wire::{
    capacity, i32_bits, lemma_i32_round_trip, lemma_capacity_values, lemma_uint_bytes_len,
    lemma_uint_round_trip, uint_bytes, Endian,
};
use vstd::prelude::*;

verus! {

/// Whether the length of a record around `data_len` bytes of data can be
/// written in the length field.
pub open spec fn length_fits(abi: Abi, data_len: nat) -> bool {
    abi.header_len() + data_len < capacity(abi.len_width.bytes())
}

/// The header of a record that stands anywhere in a buffer reads back as
/// written: the length of the whole record, the socket level, the type.
pub proof fn lemma_header_reads_back(
    abi: Abi,
    before: Seq<u8>,
    ty: i32,
    data: Seq<u8>,
    behind: Seq<u8>,
)
    requires
        length_fits(abi, data.len()),
    ensures
        record(abi, ty, data).len() == abi.header_len() + data.len(),
        record_len(abi, before + record(abi, ty, data) + behind, before.len() as int)
            == abi.header_len() + data.len(),
        record_level(abi, before + record(abi, ty, data) + behind, before.len() as int)
            == abi.sol_socket,
        record_type(abi, before + record(abi, ty, data) + behind, before.len() as int) == ty,
{
    let width = abi.len_width.bytes();
    let total = abi.header_len() + data.len();
    let bytes = before + record(abi, ty, data) + behind;
    let at = before.len() as int;
    let len_field = uint_bytes(abi.order, total, width);
    let level_field = uint_bytes(abi.order, i32_bits(abi.sol_socket), 4);
    let type_field = uint_bytes(abi.order, i32_bits(ty), 4);
    lemma_uint_bytes_len(abi.order, total, width);
    lemma_uint_bytes_len(abi.order, i32_bits(abi.sol_socket), 4);
    lemma_uint_bytes_len(abi.order, i32_bits(ty), 4);
    lemma_header_len(abi, total, ty);
    lemma_capacity_values();
    lemma_i32_round_trip(abi.sol_socket);
    lemma_i32_round_trip(ty);
    lemma_uint_round_trip(abi.order, total, width);
    lemma_uint_round_trip(abi.order, i32_bits(abi.sol_socket), 4);
    lemma_uint_round_trip(abi.order, i32_bits(ty), 4);
    assert(bytes.subrange(at, at + width) =~= len_field);
    assert(bytes.subrange(at + width, at + width + 4) =~= level_field);
    assert(bytes.subrange(at + width + 4, at + width + 4 + 4) =~= type_field);
}

/// Descriptor `i` of a packed run stands in the four bytes from `4 * i` on.
pub proof fn lemma_fd_slot(order: Endian, fds: Seq<i32>, i: int)
    requires
        0 <= i < fds.len(),
    ensures
        fds_bytes(order, fds).len() == 4 * fds.len(),
        fds_bytes(order, fds).subrange(4 * i, 4 * i + 4) == uint_bytes(order, i32_bits(fds[i]), 4),
    decreases fds.len(),
{
    let front = fds.drop_last();
    let piece = uint_bytes(order, i32_bits(fds.last()), 4);
    lemma_fds_bytes_len(order, fds);
    lemma_fds_bytes_len(order, front);
    lemma_uint_bytes_len(order, i32_bits(fds.last()), 4);
    if i == fds.len() - 1 {
        assert(fds_bytes(order, fds).subrange(4 * i, 4 * i + 4) =~= piece);
    } else {
        lemma_fd_slot(order, front, i);
        assert(fds_bytes(order, fds).subrange(4 * i, 4 * i + 4) =~= fds_bytes(
            order,
            front,
        ).subrange(4 * i, 4 * i + 4));
    }
}

/// Packed descriptors that stand at `at` in a buffer read back as they were.
pub proof fn lemma_fds_read_back(abi: Abi, bytes: Seq<u8>, at: int, fds: Seq<i32>)
    requires
        0 <= at,
        at + 4 * fds.len() <= bytes.len(),
        bytes.subrange(at, at + 4 * fds.len()) == fds_bytes(abi.order, fds),
    ensures
        fds_at(abi, bytes, at, fds.len()) == fds,
{
    let packed = fds_bytes(abi.order, fds);
    assert forall|i: int| 0 <= i < fds.len() implies i32_at(abi, bytes, at + 4 * i) == fds[i] by {
        lemma_fd_slot(abi.order, fds, i);
        lemma_i32_round_trip(fds[i]);
        lemma_capacity_values();
        lemma_uint_round_trip(abi.order, i32_bits(fds[i]), 4);
        assert(bytes.subrange(at + 4 * i, at + 4 * i + 4) =~= packed.subrange(4 * i, 4 * i + 4));
    }
    assert(fds_at(abi, bytes, at, fds.len()) =~= fds);
}

/// A descriptor-array record that stands at `before.len()` is handed out
/// with its descriptors, and the cursor moves to its end.
pub proof fn lemma_step_on_fd_record(abi: Abi, before: Seq<u8>, fds: Seq<i32>, behind: Seq<u8>)
    requires
        length_fits(abi, 4 * fds.len()),
    ensures
        step(abi, before + fd_record(abi, fds) + behind, before.len()) == (Step::Emit {
            record: Record::Fd(fds),
            next: before.len() + fd_record(abi, fds).len(),
        }),
        fd_record(abi, fds).len() == abi.header_len() + 4 * fds.len(),
{
    let data = fds_bytes(abi.order, fds);
    let bytes = before + fd_record(abi, fds) + behind;
    let at = (before.len() + abi.header_len()) as int;
    lemma_fds_bytes_len(abi.order, fds);
    lemma_header_reads_back(abi, before, abi.scm_rights, data, behind);
    lemma_header_len(abi, abi.header_len() + data.len(), abi.scm_rights);
    assert(bytes.subrange(at, at + 4 * fds.len()) =~= data);
    lemma_fds_read_back(abi, bytes, at, fds);
}

/// Round trip: the record written for any descriptors, none included,
/// decodes to exactly those descriptors, in their order, and nothing else.
pub proof fn lemma_round_trip(abi: Abi, fds: Seq<i32>)
    requires
        length_fits(abi, 4 * fds.len()),
    ensures
        records(abi, fd_record(abi, fds)) == Some(seq![Record::Fd(fds)]),
{
    let bytes = fd_record(abi, fds);
    let empty = Seq::<u8>::empty();
    lemma_step_on_fd_record(abi, empty, fds, empty);
    assert(empty + bytes + empty =~= bytes);
    assert(step(abi, bytes, bytes.len()) == Step::End);
    assert(records_from(abi, bytes, bytes.len()) == Some(Seq::<Record>::empty()));
    assert(seq![Record::Fd(fds)] + Seq::<Record>::empty() =~= seq![Record::Fd(fds)]);
}

/// What a send buffer was made from is what a receive makes of it: the same
/// descriptors, and no credentials.
pub proof fn lemma_payload_round_trip(abi: Abi, fds: Seq<i32>)
    requires
        length_fits(abi, 4 * fds.len()),
    ensures
        records(abi, fd_record(abi, fds)) matches Some(found) && all_fds(found) == fds
            && last_cred(found) is None,
{
    lemma_round_trip(abi, fds);
    let found = seq![Record::Fd(fds)];
    let none = Seq::<Record>::empty();
    assert(found.drop_last() =~= none);
    assert(found.last() == Record::Fd(fds));
    assert(all_fds(none) =~= Seq::<i32>::empty());
    assert(all_fds(found) == all_fds(none) + fds);
    assert(all_fds(none) + fds =~= fds);
    assert(last_cred(found) == last_cred(none));
}

/// With no descriptors the record is a header alone, whose length field
/// counts the header, and it decodes to one record with no descriptors.
pub proof fn lemma_no_descriptors(abi: Abi)
    ensures
        fd_record(abi, Seq::empty()) == header(abi, abi.header_len(), abi.scm_rights),
        fd_record(abi, Seq::empty()).len() == abi.header_len(),
        records(abi, fd_record(abi, Seq::empty())) == Some(seq![Record::Fd(Seq::empty())]),
{
    let none = Seq::<i32>::empty();
    lemma_capacity_values();
    lemma_header_len(abi, abi.header_len(), abi.scm_rights);
    assert(fd_record(abi, none) =~= header(abi, abi.header_len(), abi.scm_rights));
    lemma_round_trip(abi, none);
}

/// A record of a type that is neither of the two known ones is passed over:
/// such a record followed by a descriptor-array record decodes to the
/// descriptor-array record alone.
pub proof fn lemma_unknown_type_is_skipped(abi: Abi, ty: i32, data: Seq<u8>, fds: Seq<i32>)
    requires
        ty != abi.scm_rights,
        ty != abi.scm_credentials,
        length_fits(abi, data.len()),
        length_fits(abi, 4 * fds.len()),
    ensures
        records(abi, record(abi, ty, data) + fd_record(abi, fds)) == Some(seq![Record::Fd(fds)]),
{
    let first = record(abi, ty, data);
    let bytes = first + fd_record(abi, fds);
    let empty = Seq::<u8>::empty();
    lemma_header_reads_back(abi, empty, ty, data, fd_record(abi, fds));
    assert(empty + first + fd_record(abi, fds) =~= bytes);
    assert(step(abi, bytes, 0) == Step::Skip { next: first.len() });
    lemma_step_on_fd_record(abi, first, fds, empty);
    assert(first + fd_record(abi, fds) + empty =~= bytes);
    assert(step(abi, bytes, bytes.len()) == Step::End);
    assert(records_from(abi, bytes, bytes.len()) == Some(Seq::<Record>::empty()));
    assert(seq![Record::Fd(fds)] + Seq::<Record>::empty() =~= seq![Record::Fd(fds)]);
    assert(records_from(abi, bytes, first.len()) == Some(seq![Record::Fd(fds)]));
}

/// An empty buffer decodes to no record at all.
pub proof fn lemma_empty_buffer(abi: Abi)
    ensures
        records(abi, Seq::empty()) == Some(Seq::<Record>::empty()),
{
}

/// A buffer that is not empty and shorter than one header is malformed.
pub proof fn lemma_short_buffer(abi: Abi, bytes: Seq<u8>)
    requires
        0 < bytes.len() < abi.header_len(),
    ensures
        records(abi, bytes) is None,
{
}

/// Slots of zero are descriptors of zero: a record reserved for `n`
/// descriptors and left untouched is the record that carries `n` zeros.
pub proof fn lemma_reserved_slots(abi: Abi, n: nat)
    ensures
        record(abi, abi.scm_rights, zeros(4 * n)) == fd_record(abi, Seq::new(n, |i: int| 0i32)),
{
    lemma_zero_fds(abi.order, n);
}

/// `n` descriptors of zero are packed as `4 * n` bytes of zero.
pub proof fn lemma_zero_fds(order: Endian, n: nat)
    ensures
        fds_bytes(order, Seq::new(n, |i: int| 0i32)) == zeros(4 * n),
    decreases n,
{
    let fds = Seq::new(n, |i: int| 0i32);
    if n == 0 {
        assert(fds_bytes(order, fds) =~= zeros(0));
    } else {
        lemma_zero_fds(order, (n - 1) as nat);
        assert(fds.drop_last() =~= Seq::new((n - 1) as nat, |i: int| 0i32));
        reveal_with_fuel(crate::wire::le_bytes, 5);
        reveal_with_fuel(crate::wire::be_bytes, 5);
        assert(uint_bytes(order, 0, 4) =~= zeros(4));
        assert(fds_bytes(order, fds) =~= zeros(4 * n));
    }
}

} // verus!
