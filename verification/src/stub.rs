//! An in-process stand-in for the host module.
//!
//! A `StubHandle` plays the part of a connected host: it answers every
//! exchange with a fixed status word and, optionally, a canned response
//! buffer. With no canned response the sent message itself is scanned, as
//! if the host had overwritten the buffer in place without touching it.
//! The real transports drive an operating-system exchange instead, but the
//! sessions they hand out batch and scatter exactly as this one does.

use vstd::prelude::*;

use crate::errors::{FramingFault, IpcError};
use crate::ipc::{header_wire, lemma_header_round_trip, zero_bytes, MsgHeader};
use crate::laws::{lemma_batch_wire_zero_tail, lemma_indirection_scatter, tail_wire};
use crate::session::{
    batch_wire, lemma_apply_lens, read_lens, spec_apply, spec_scan, zero_slots, ApplyOutcome,
    Batch, Request, ScanOutcome,
};
use crate::{Handle, ProcessOutcome, Session, MESSAGE_SUCCESS};

verus! {

/// The reserved leading bytes of the stub's wire buffer, matching the
/// host-side convention of a leading slot that carries no request.
pub const STUB_OVERHEAD: usize = 4;

fn copy_bytes(src: &Vec<u8>) -> (r: Vec<u8>)
    ensures
        r@ == src@,
{
    let n: usize = src.len();
    let mut out: Vec<u8> = Vec::new();
    let mut i: usize = 0;
    while i < n
        invariant
            i <= n,
            n == src@.len(),
            out@ =~= src@.subrange(0, i as int),
        decreases n - i,
    {
        out.push(src[i]);
        i = i + 1;
    }
    proof {
        assert(out@ =~= src@);
    }
    out
}

/// A stand-in connection: every session it makes will see this status
/// word, and this canned response if one is set.
pub struct StubHandle {
    status: u32,
    response: Option<Vec<u8>>,
}

impl StubHandle {
    /// The status word the stub host answers with.
    pub closed spec fn status(&self) -> u32 {
        self.status
    }

    /// The response buffer the stub host answers with, if one is set.
    pub closed spec fn canned_response(&self) -> Option<Seq<u8>> {
        match self.response {
            Some(v) => Some(v@),
            None => None,
        }
    }

    pub fn new(status: u32, response: Option<Vec<u8>>) -> (h: StubHandle)
        ensures
            h.status() == status,
            response matches Some(v) ==> h.canned_response() == Some(v@),
            response is None ==> h.canned_response() is None,
    {
        StubHandle { status, response }
    }
}

impl Handle for StubHandle {
    type Sess = StubSession;

    open spec fn overhead(&self) -> int {
        STUB_OVERHEAD as int
    }

    fn session(&self) -> (s: StubSession)
        ensures
            s.status() == self.status(),
            s.canned_response() == self.canned_response(),
    {
        let response = match &self.response {
            Some(v) => Some(copy_bytes(v)),
            None => None,
        };
        StubSession { batch: Batch::new(STUB_OVERHEAD), status: self.status, response }
    }

    fn disconnect(self) {
    }
}

/// A session against the stub host.
pub struct StubSession {
    batch: Batch,
    status: u32,
    response: Option<Vec<u8>>,
}

impl StubSession {
    /// The status word the stub host will answer with.
    pub closed spec fn status(&self) -> u32 {
        self.status
    }

    /// The response buffer the stub host will answer with, if one is set.
    pub closed spec fn canned_response(&self) -> Option<Seq<u8>> {
        match self.response {
            Some(v) => Some(v@),
            None => None,
        }
    }

    /// The complete message `process` sends: reserved overhead, every
    /// request in order, termination mark.
    pub open spec fn sent_wire(&self) -> Seq<u8> {
        zero_bytes(Session::overhead(self)) + batch_wire(Session::requests(self)) + header_wire(
            MsgHeader::TerminationMark,
        )
    }

    /// The bytes `process` scans as the host's response: the canned
    /// response, or the sent message itself when none is set.
    pub open spec fn response_bytes(&self) -> Seq<u8> {
        match self.canned_response() {
            Some(s) => s,
            None => self.sent_wire(),
        }
    }
}

impl Session for StubSession {
    closed spec fn wf(&self) -> bool {
        self.batch.wf()
    }

    closed spec fn requests(&self) -> Seq<Request> {
        self.batch.requests()
    }

    closed spec fn overhead(&self) -> int {
        self.batch.prefix_len()
    }

    fn read_bytes(&mut self, offset: u16, len: usize) -> (r: Result<usize, IpcError>) {
        let n = self.batch.add_read(offset, len as u32);
        Ok(n)
    }

    fn write_bytes(&mut self, offset: u16, src: &Vec<u8>) -> (r: Result<usize, IpcError>) {
        let n = self.batch.add_write(offset, src);
        Ok(n)
    }

    /// The stub exchange: a non-success status rejects the batch — the
    /// error keeps the sent buffer and no read result is handed out — and
    /// otherwise the response is scanned and scattered exactly as the
    /// response-scan model says.
    fn process(self) -> (r: Result<ProcessOutcome, IpcError>)
        ensures
            self.status() != MESSAGE_SUCCESS ==> (r matches Err(e) && e matches
                IpcError::RejectedBatch { status, buffer } && status == self.status() && buffer@
                == self.sent_wire()),
            self.status() == MESSAGE_SUCCESS && self.canned_response() is None ==> (r matches Ok(
                out,
            ) && out.read_results.deep_view() == zero_slots(read_lens(Session::requests(&self)))),
            self.status() == MESSAGE_SUCCESS ==> match spec_scan(
                self.response_bytes(),
                Session::overhead(&self),
            ) {
                ScanOutcome::Short => r matches Err(e) && e is UnexpectedEof,
                ScanOutcome::Corrupt(t) => r matches Err(e) && e matches IpcError::FramingError(f)
                    && f == FramingFault::UnknownTag(t),
                ScanOutcome::Done(hits) => match spec_apply(
                    hits,
                    read_lens(Session::requests(&self)),
                ) {
                    ApplyOutcome::BadIndex(t) => r matches Err(e) && e matches
                        IpcError::FramingError(f) && f == FramingFault::InvalidIndex(t),
                    ApplyOutcome::Applied(tbl) => r matches Ok(out) && out.read_results.deep_view()
                        == tbl,
                },
            },
    {
        let StubSession { batch, status, response } = self;
        proof {
            lemma_header_round_trip(MsgHeader::TerminationMark);
        }
        let sealed = batch.seal();
        proof {
            assert(sealed.wire() =~= self.sent_wire());
        }
        let total = sealed.total();
        if status != MESSAGE_SUCCESS {
            return Err(IpcError::RejectedBatch { status, buffer: sealed.into_wire() });
        }
        let scattered = match &response {
            Some(resp) => sealed.scatter(resp),
            None => {
                proof {
                    let reqs = Session::requests(&self);
                    let zb = zero_slots(read_lens(reqs));
                    let lead = Session::overhead(&self);
                    lemma_batch_wire_zero_tail(reqs);
                    assert forall|j: int| 0 <= j < zb.len() implies (#[trigger] zb[j]).len()
                        == read_lens(reqs)[j] by {}
                    assert(sealed.wire().subrange(lead, sealed.wire().len() as int) =~= tail_wire(
                        reqs,
                        0,
                        0,
                        zb,
                    ) + header_wire(MsgHeader::TerminationMark));
                    lemma_indirection_scatter(reqs, zb, lead, sealed.wire());
                }
                sealed.scatter(sealed.wire_bytes())
            },
        };
        match scattered {
            Ok(read_results) => {
                proof {
                    match spec_scan(self.response_bytes(), Session::overhead(&self)) {
                        ScanOutcome::Done(hits) => {
                            match spec_apply(hits, read_lens(Session::requests(&self))) {
                                ApplyOutcome::Applied(tbl) => {
                                    lemma_apply_lens(
                                        hits,
                                        read_lens(Session::requests(&self)),
                                        tbl,
                                    );
                                },
                                ApplyOutcome::BadIndex(_) => {},
                            }
                        },
                        _ => {},
                    }
                    assert(read_results.deep_view().len() == read_results@.len());
                    assert(forall|i: int|
                        0 <= i < read_results@.len() ==> (#[trigger] read_results@[i])@.len()
                            == read_results.deep_view()[i].len());
                }
                Ok(ProcessOutcome { total, read_results })
            },
            Err(e) => Err(e),
        }
    }
}

} // verus!
