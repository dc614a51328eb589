//! The host's conventions for control messages, resolved once.

use crate::wire::{be_value, le_value, Endian};
use byteorder::{ByteOrder, NativeEndian};
use vstd::prelude::*;

verus! {

/// Width of the length field that starts a control-message header.
#[derive(Clone, Copy, Debug, PartialEq, Eq, Hash, Structural)]
pub enum LenWidth {
    Four,
    Eight,
}

impl LenWidth {
    /// Number of bytes of the field.
    pub open spec fn bytes(self) -> nat {
        match self {
            LenWidth::Four => 4,
            LenWidth::Eight => 8,
        }
    }

    /// Number of bytes of the field.
    pub fn size(self) -> (r: usize)
        ensures
            r == self.bytes(),
    {
        match self {
            LenWidth::Four => 4,
            LenWidth::Eight => 8,
        }
    }
}

/// Everything about a control-message buffer that differs from one target to
/// the next: byte order, the width of the length field, and the numbers that
/// name the socket level and the two record types.
#[derive(Clone, Copy, Debug, PartialEq, Eq, Hash, Structural)]
pub struct Abi {
    pub order: Endian,
    pub len_width: LenWidth,
    /// Protocol level of every record this library writes or reads.
    pub sol_socket: i32,
    /// Type of a record that carries file descriptors.
    pub scm_rights: i32,
    /// Type of a record that carries the sender's credentials.
    pub scm_credentials: i32,
}

/// `byteorder::NativeEndian::read_u16`: the first two bytes of `buf` read in
/// the byte order of the machine, which is one of the two orders. It panics on
/// a shorter `buf`.
#[verifier::external_body]
fn native_read_u16(buf: &[u8]) -> (r: u16)
    requires
        buf.len() >= 2,
    ensures
        r as nat == le_value(buf@.subrange(0, 2)) || r as nat == be_value(buf@.subrange(0, 2)),
{
    NativeEndian::read_u16(buf)
}

/// `libc::SOL_SOCKET`, whose value depends on the target.
#[verifier::external_body]
fn libc_sol_socket() -> (r: i32) {
    libc::SOL_SOCKET
}

/// `libc::SCM_RIGHTS`, whose value depends on the target.
#[verifier::external_body]
fn libc_scm_rights() -> (r: i32) {
    libc::SCM_RIGHTS
}

/// `libc::SCM_CREDENTIALS`, whose value depends on the target.
#[verifier::external_body]
fn libc_scm_credentials() -> (r: i32) {
    libc::SCM_CREDENTIALS
}

impl Abi {
    /// Size of a record's header: the length field, then level and type.
    pub open spec fn header_len(self) -> nat {
        self.len_width.bytes() + 8
    }

    /// Size of a record's header.
    pub fn header_size(&self) -> (r: usize)
        ensures
            r == self.header_len(),
    {
        self.len_width.size() + 8
    }

    /// The conventions of the machine this runs on. The length field is as
    /// wide as a pointer; byte order and the three numbers are whatever the
    /// target has.
    pub fn host() -> (r: Abi)
        ensures
            r.len_width.bytes() * 8 == usize::BITS,
    {
        let probe: Vec<u8> = vec![1u8, 0u8];
        let seen: u16 = native_read_u16(probe.as_slice());
        let order = if seen == 1 {
            Endian::Little
        } else {
            Endian::Big
        };
        let len_width = if usize::BITS == 32 {
            LenWidth::Four
        } else {
            LenWidth::Eight
        };
        Abi {
            order,
            len_width,
            sol_socket: libc_sol_socket(),
            scm_rights: libc_scm_rights(),
            scm_credentials: libc_scm_credentials(),
        }
    }
}

} // verus!
