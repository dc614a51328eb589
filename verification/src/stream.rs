//! One non-blocking send or receive with ancillary data: the buffer handed
//! to the system call, and what to make of the call's return.

use crate::abi::Abi;
use crate::ancillary::{Ancillary, AncillaryExpect, UCred};
use crate::cmsg::{
    fd_record, record, records, records_from, settle, step, zeros, Cmsg, CmsgData, Malformed,
    Record, Step,
};
use crate::wire::lemma_capacity_values;
use vstd::prelude::*;

verus! {

/// The descriptors of all descriptor-array records among `found`, in order.
pub open spec fn all_fds(found: Seq<Record>) -> Seq<i32>
    decreases found.len(),
{
    if found.len() == 0 {
        Seq::empty()
    } else {
        match found.last() {
            Record::Fd(fds) => all_fds(found.drop_last()) + fds,
            Record::Cred(_) => all_fds(found.drop_last()),
        }
    }
}

/// The identity of the last credential record among `found`.
pub open spec fn last_cred(found: Seq<Record>) -> Option<UCred>
    decreases found.len(),
{
    if found.len() == 0 {
        None
    } else {
        match found.last() {
            Record::Cred(cred) => Some(cred),
            Record::Fd(_) => last_cred(found.drop_last()),
        }
    }
}

/// `rest` after `seen`, where `rest` is there at all.
pub open spec fn after(seen: Seq<Record>, rest: Option<Seq<Record>>) -> Option<Seq<Record>> {
    match rest {
        Some(rest) => Some(seen + rest),
        None => None,
    }
}

/// Skipped records do not count: decoding from `pos` is decoding from where
/// the cursor comes to rest, which is no earlier and where nothing is skipped.
pub proof fn lemma_settle(abi: Abi, bytes: Seq<u8>, pos: nat)
    ensures
        settle(abi, bytes, pos) >= pos,
        !(step(abi, bytes, settle(abi, bytes, pos)) is Skip),
        records_from(abi, bytes, pos) == records_from(abi, bytes, settle(abi, bytes, pos)),
    decreases bytes.len() - pos,
{
    match step(abi, bytes, pos) {
        Step::Skip { next } => lemma_settle(abi, bytes, next),
        _ => {},
    }
}

impl AncillaryExpect {
    /// The buffer for a receive: one descriptor-array record with `fds`
    /// slots, all zero. No room is made for credentials, asked for or not.
    pub fn cmsg(self) -> (r: Cmsg)
        requires
            4 * self.fds + 16 <= usize::MAX,
        ensures
            r@ == record(r.abi(), r.abi().scm_rights, zeros(4 * self.fds as nat)),
            r.abi().len_width.bytes() * 8 == usize::BITS,
    {
        let mut cmsg = Cmsg::default();
        proof {
            lemma_capacity_values();
        }
        cmsg.empty_fds(self.fds);
        cmsg
    }
}

impl Ancillary {
    /// The buffer for a send: one descriptor-array record with the values of
    /// `fds_in`. Credentials are not written.
    pub fn cmsg(self) -> (r: Cmsg)
        requires
            4 * self.fds_in@.len() + 16 <= usize::MAX,
        ensures
            r@ == fd_record(r.abi(), self.fds_in@),
            r.abi().len_width.bytes() * 8 == usize::BITS,
    {
        let mut cmsg = Cmsg::default();
        proof {
            lemma_capacity_values();
        }
        cmsg.add_fds_raw(self.fds_in.as_slice());
        cmsg
    }
}

impl Cmsg {
    /// Everything the buffer's records carry: the descriptors of all
    /// descriptor-array records, in order, and the last credentials.
    pub fn data(&self) -> (r: Result<Ancillary, Malformed>)
        ensures
            match records(self.abi(), self@) {
                None => r is Err,
                Some(found) => {
                    &&& r matches Ok(out)
                    &&& out.fds_in@ == all_fds(found)
                    &&& out.cred == last_cred(found)
                },
            },
    {
        let mut iter = self.iter();
        let mut out = Ancillary::empty();
        let ghost mut seen: Seq<Record> = Seq::empty();
        assert(after(seen, records_from(self.abi(), self@, 0)) =~= records(self.abi(), self@));
        loop
            invariant
                iter.source() == self,
                iter.position() <= self@.len(),
                records(self.abi(), self@) == after(
                    seen,
                    records_from(self.abi(), self@, iter.position()),
                ),
                out.fds_in@ == all_fds(seen),
                out.cred == last_cred(seen),
            decreases self@.len() - iter.position(),
        {
            proof {
                lemma_settle(self.abi(), self@, iter.position());
            }
            match iter.next() {
                None => {
                    assert(seen + Seq::<Record>::empty() =~= seen);
                    return Ok(out);
                },
                Some(Err(e)) => {
                    return Err(e);
                },
                Some(Ok(CmsgData::Fd(fds))) => {
                    let mut fds = fds;
                    proof {
                        let ghost found = Record::Fd(fds@);
                        assert(seen.push(found).drop_last() =~= seen);
                        seen = seen.push(found);
                    }
                    out.fds_in.append(&mut fds);
                },
                Some(Ok(CmsgData::Cred(cred))) => {
                    proof {
                        let ghost found = Record::Cred(cred);
                        assert(seen.push(found).drop_last() =~= seen);
                        seen = seen.push(found);
                    }
                    out.cred = Some(cred);
                },
            }
        }
    }
}

/// What the operating system said of a call that failed.
#[derive(Clone, Copy, Debug, PartialEq, Eq, Hash, Structural)]
pub struct OsError {
    /// The error number.
    pub code: i32,
    /// Whether the call failed only because it would have had to wait.
    pub would_block: bool,
}

/// Why a send or a receive gave nothing.
#[derive(Clone, Copy, Debug, PartialEq, Eq, Hash, Structural)]
pub enum ChannelError {
    /// Nothing to read, or no room to write, right now. Try again when the
    /// socket is ready again.
    WouldBlock,
    /// The operating system refused, with this error number.
    Io(i32),
    /// The control buffer came back in a state that cannot be decoded.
    Malformed,
}

/// The error for a call that the operating system failed with `error`:
/// having to wait is told apart, every other failure keeps its number.
pub open spec fn failure(error: OsError) -> ChannelError {
    if error.would_block {
        ChannelError::WouldBlock
    } else {
        ChannelError::Io(error.code)
    }
}

/// The error for a call that the operating system failed with `error`.
pub fn os_failure(error: OsError) -> (r: ChannelError)
    ensures
        r == failure(error),
{
    if error.would_block {
        ChannelError::WouldBlock
    } else {
        ChannelError::Io(error.code)
    }
}

/// How many of `bufs` buffers one call takes: all of them, up to the
/// largest count that fits a C `int`.
pub fn iov_count(bufs: usize) -> (r: usize)
    ensures
        r == if bufs <= i32::MAX {
            bufs
        } else {
            i32::MAX as usize
        },
{
    if bufs <= 0x7fff_ffff {
        bufs
    } else {
        0x7fff_ffff
    }
}

/// What a receive yields, given what the system call returned: `rc`, with
/// `error` describing the failure where `rc` is negative, and `control` as
/// the call left it.
///
/// A negative `rc` is the system's failure. Zero bytes mean the peer has shut
/// down in good order, and nothing came with them. Otherwise the result is
/// the byte count and what the control buffer carries.
pub fn read_bufs_result(rc: isize, error: OsError, control: &Cmsg) -> (r: Result<
    (usize, Ancillary),
    ChannelError,
>)
    ensures
        rc < 0 ==> r is Err && r->Err_0 == failure(error),
        rc == 0 ==> {
            &&& r matches Ok(got)
            &&& got.0 == 0
            &&& got.1.fds_in@ == Seq::<i32>::empty()
            &&& got.1.cred is None
        },
        rc > 0 ==> match records(control.abi(), control@) {
            None => r is Err && r->Err_0 == ChannelError::Malformed,
            Some(found) => {
                &&& r matches Ok(got)
                &&& got.0 == rc
                &&& got.1.fds_in@ == all_fds(found)
                &&& got.1.cred == last_cred(found)
            },
        },
{
    if rc < 0 {
        Err(os_failure(error))
    } else if rc == 0 {
        Ok((0, Ancillary::empty()))
    } else {
        match control.data() {
            Ok(ancillary) => Ok((rc as usize, ancillary)),
            Err(_) => Err(ChannelError::Malformed),
        }
    }
}

/// What a send yields, given what the system call returned: the failure for
/// a negative `rc`, else the number of bytes written.
pub fn write_bufs_result(rc: isize, error: OsError) -> (r: Result<usize, ChannelError>)
    ensures
        r == if rc < 0 {
            Err::<usize, ChannelError>(failure(error))
        } else {
            Ok::<usize, ChannelError>(rc as usize)
        },
{
    if rc < 0 {
        Err(os_failure(error))
    } else {
        Ok(rc as usize)
    }
}

/// Credentials in the form in which a credential record carries them.
#[derive(Clone, Copy, Debug, PartialEq, Eq, Hash, Structural)]
pub struct ScmCredentials {
    pub pid: i32,
    pub uid: u32,
    pub gid: u32,
}

impl ScmCredentials {
    /// Whether any process is named: no process has the number zero.
    pub fn has_data(&self) -> (r: bool)
        ensures
            r == (self.pid != 0),
    {
        self.pid != 0
    }
}

impl Default for ScmCredentials {
    /// Credentials that name nobody. The user and group are the largest
    /// numbers, so that what was never filled in is not taken for root.
    fn default() -> (r: Self)
        ensures
            r == (ScmCredentials { pid: 0, uid: u32::MAX, gid: u32::MAX }),
    {
        ScmCredentials { pid: 0, uid: u32::MAX, gid: u32::MAX }
    }
}

impl From<UCred> for ScmCredentials {
    #[inline]
    fn from(cred: UCred) -> (r: ScmCredentials) {
        ScmCredentials { pid: cred.pid, uid: cred.uid, gid: cred.gid }
    }
}

impl vstd::std_specs::convert::FromSpecImpl<UCred> for ScmCredentials {
    open spec fn obeys_from_spec() -> bool {
        true
    }

    open spec fn from_spec(cred: UCred) -> ScmCredentials {
        ScmCredentials { pid: cred.pid, uid: cred.uid, gid: cred.gid }
    }
}

impl From<ScmCredentials> for UCred {
    #[inline]
    fn from(cred: ScmCredentials) -> (r: UCred) {
        UCred { pid: cred.pid, uid: cred.uid, gid: cred.gid }
    }
}

impl vstd::std_specs::convert::FromSpecImpl<ScmCredentials> for UCred {
    open spec fn obeys_from_spec() -> bool {
        true
    }

    open spec fn from_spec(cred: ScmCredentials) -> UCred {
        UCred { pid: cred.pid, uid: cred.uid, gid: cred.gid }
    }
}

} // verus!
