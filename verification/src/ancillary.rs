//! What travels beside the payload bytes: descriptors and credentials.

use vstd::prelude::*;

verus! {

/// Ancillary messages that a receive should make room for.
#[derive(Copy, Clone, Eq, PartialEq, Hash, Debug, Structural)]
pub struct AncillaryExpect {
    /// Expect credentials to be received by this socket.
    pub creds: bool,
    /// Maximum number of open file descriptors expected to be received on
    /// this socket.
    pub fds: usize,
}

impl Default for AncillaryExpect {
    fn default() -> (r: Self)
        ensures
            r == (AncillaryExpect { creds: false, fds: 0 }),
    {
        AncillaryExpect { creds: false, fds: 0 }
    }
}

/// Credentials transferred alongside a socket.
#[derive(Copy, Clone, Eq, PartialEq, Hash, Debug, Structural)]
pub struct UCred {
    /// PID (process ID) of the process.
    pub pid: i32,
    /// UID (user ID) of the process.
    pub uid: u32,
    /// GID (group ID) of the process.
    pub gid: u32,
}

/// Ancillary messages sent or received with the payload.
#[derive(Eq, PartialEq, Debug)]
pub struct Ancillary {
    /// File descriptors transferred alongside this socket, by raw value.
    pub fds_in: Vec<i32>,
    /// Credentials transferred alongside this socket.
    pub cred: Option<UCred>,
}

impl Ancillary {
    /// Returns an empty struct.
    pub fn empty() -> (r: Self)
        ensures
            r.fds_in@ == Seq::<i32>::empty(),
            r.cred is None,
    {
        Ancillary { fds_in: Vec::new(), cred: None }
    }

    /// Adds open file descriptors to the data to be sent, after those
    /// already listed. Sending copies the values; the descriptors stay open
    /// and stay the caller's to close.
    pub fn add_fds(&mut self, fds: Vec<i32>)
        ensures
            final(self).fds_in@ == old(self).fds_in@ + fds@,
            final(self).cred == old(self).cred,
    {
        self.fds_in.reserve(fds.len());
        let mut i: usize = 0;
        while i < fds.len()
            invariant
                i <= fds.len(),
                self.fds_in@ == old(self).fds_in@ + fds@.take(i as int),
                self.cred == old(self).cred,
            decreases fds.len() - i,
        {
            self.fds_in.push(fds[i]);
            i = i + 1;
            assert(fds@.take(i as int) =~= fds@.take(i - 1).push(fds@[i - 1]));
        }
        assert(fds@.take(i as int) =~= fds@);
    }
}

} // verus!
