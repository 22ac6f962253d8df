//! Client-side protocol engine for the FSUIPC inter-process interface.
//!
//! A caller batches read and write requests against the flight simulator's
//! state offsets, the batch is framed into one binary message, exchanged
//! with the host module in a single round trip, and the response is decoded
//! and fanned back out to the requested destinations.

use vstd::prelude::*;

pub mod errors;
pub mod ipc;
pub mod laws;
pub mod raw;
pub mod session;
pub mod stub;

use crate::errors::IpcError;
use crate::session::{batch_wire, read_lens, Request};

verus! {

/// Protocol status word the host returns for an accepted batch.
pub const MESSAGE_SUCCESS: u32 = 1;

/// What a processed batch came back with.
pub struct ProcessOutcome {
    /// Total bytes of the message as sent, the transport's reserved
    /// overhead included.
    pub total: usize,
    /// One destination per read issued, in issuance order, each of its
    /// registered length and holding the bytes the response assigned it.
    pub read_results: Vec<Vec<u8>>,
}

/// One exchange with the host: a sequence of read and write requests,
/// batched up by `read_bytes` and `write_bytes` and executed as a single
/// round trip by `process`, which consumes the session. A session is good
/// for one exchange; after `process`, or after any failure, it is gone.
pub trait Session: Sized {
    /// The session is in a usable state.
    spec fn wf(&self) -> bool;

    /// The requests batched so far, in issuance order.
    spec fn requests(&self) -> Seq<Request>;

    /// The transport's fixed overhead: reserved bytes at the front of the
    /// wire message that carry no request.
    spec fn overhead(&self) -> int;

    /// Batches a request to read `len` bytes of host state at `offset`.
    /// The result arrives only after `process`, as entry `i` of its
    /// outcome for the `i`-th read issued. Reports the bytes staged.
    fn read_bytes(&mut self, offset: u16, len: usize) -> (r: Result<usize, IpcError>)
        requires
            old(self).wf(),
            len < 0x1_0000_0000,
            len + 16 <= usize::MAX,
            read_lens(old(self).requests()).len() < 0xffff_ffff,
        ensures
            final(self).wf(),
            final(self).overhead() == old(self).overhead(),
            final(self).requests() == old(self).requests().push(
                Request::Read { offset, len: len as u32 },
            ),
            r matches Ok(n) && n == 16 + len,
    ;

    /// Batches a request to write the bytes of `src` to host state at
    /// `offset`. Reports the bytes staged.
    fn write_bytes(&mut self, offset: u16, src: &Vec<u8>) -> (r: Result<usize, IpcError>)
        requires
            old(self).wf(),
            src.len() < 0x1_0000_0000,
            src.len() + 12 <= usize::MAX,
        ensures
            final(self).wf(),
            final(self).overhead() == old(self).overhead(),
            final(self).requests() == old(self).requests().push(
                Request::Write { offset, data: src@ },
            ),
            r matches Ok(n) && n == 12 + src.len(),
    ;

    /// Seals the batch with a termination mark, performs the exchange, and
    /// scatters the response: the outcome reports the total bytes sent and
    /// one destination per read, in issuance order. On any failure no read
    /// result is handed out.
    fn process(self) -> (r: Result<ProcessOutcome, IpcError>)
        requires
            self.wf(),
        ensures
            r matches Ok(out) ==> {
                &&& out.total == self.overhead() + batch_wire(self.requests()).len() + 4
                &&& out.read_results@.len() == read_lens(self.requests()).len()
                &&& forall|i: int|
                    0 <= i < out.read_results@.len() ==> (#[trigger] out.read_results@[i])@.len()
                        == read_lens(self.requests())[i]
            },
    ;
}

/// A connection to the host module. It owns the transport's long-lived
/// resources and manufactures sessions; the sessions do the work.
pub trait Handle {
    /// The kind of session this handle's transport runs.
    type Sess: Session;

    /// The fixed overhead of this handle's transport.
    spec fn overhead(&self) -> int;

    /// A fresh, empty session bound to this handle's transport resources.
    fn session(&self) -> (s: Self::Sess)
        ensures
            s.wf(),
            s.requests() == Seq::<Request>::empty(),
            s.overhead() == self.overhead(),
    ;

    /// Releases the transport's resources.
    fn disconnect(self);
}

} // verus!
