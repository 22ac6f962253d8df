//! The request-batching engine.
//!
//! A `Batch` accumulates read and write requests into one outgoing buffer.
//! Because a native address may be wider than the wire's 32-bit destination
//! field, a read never puts an address on the wire: the destination is kept
//! in an append-only table owned by the batch, and the table index is written
//! as the wire `target`. Sealing appends the termination mark; scattering
//! decodes a host-overwritten response buffer and fans each read's bytes
//! back out to the table entry its `target` names.

use vstd::prelude::*;

use crate::errors::{FramingFault, IpcError};
use crate::ipc::{
    body_len, header_wire, spec_decode_header, zero_bytes, Buffer, DecodedHeader, MsgHeader,
};
use crate::raw::MutRawBytes;

verus! {

/// One request of a batch, as the contracts speak of it.
pub enum Request {
    /// Read `len` bytes of host state at `offset`.
    Read { offset: u16, len: u32 },
    /// Write the bytes `data` to host state at `offset`.
    Write { offset: u16, data: Seq<u8> },
}

/// A write's body must fit the wire's 32-bit length field.
pub open spec fn req_wf(r: Request) -> bool {
    match r {
        Request::Read { .. } => true,
        Request::Write { data, .. } => data.len() < 0x1_0000_0000,
    }
}

pub open spec fn reqs_wf(reqs: Seq<Request>) -> bool {
    forall|i: int| 0 <= i < reqs.len() ==> req_wf(#[trigger] reqs[i])
}

/// The lengths of the read requests, in issuance order; the destination
/// table holds exactly these entries.
pub open spec fn read_lens(reqs: Seq<Request>) -> Seq<u32>
    decreases reqs.len(),
{
    if reqs.len() == 0 {
        Seq::empty()
    } else {
        read_lens(reqs.drop_last()) + (match reqs.last() {
            Request::Read { len, .. } => seq![len],
            Request::Write { .. } => Seq::empty(),
        })
    }
}

/// The wire bytes of one request, given how many reads precede it: a read's
/// `target` word is its destination-table index, and its body is `len`
/// placeholder zeros for the host to overwrite.
pub open spec fn req_wire(r: Request, prior_reads: nat) -> Seq<u8> {
    match r {
        Request::Read { offset, len } => header_wire(
            MsgHeader::ReadStateData { offset, len, target: prior_reads as u32 },
        ) + zero_bytes(len as int),
        Request::Write { offset, data } => header_wire(
            MsgHeader::WriteStateData { offset, len: data.len() as u32 },
        ) + data,
    }
}

/// The wire bytes of a whole batch, before the termination mark.
pub open spec fn batch_wire(reqs: Seq<Request>) -> Seq<u8>
    decreases reqs.len(),
{
    if reqs.len() == 0 {
        Seq::empty()
    } else {
        batch_wire(reqs.drop_last()) + req_wire(reqs.last(), read_lens(reqs.drop_last()).len())
    }
}

/// A batch being built: the outgoing buffer and the destination table.
pub struct Batch {
    buf: Buffer,
    dest_lens: Vec<u32>,
    prefix: usize,
    reqs: Ghost<Seq<Request>>,
}

impl Batch {
    /// The requests issued so far, in order.
    pub closed spec fn requests(&self) -> Seq<Request> {
        self.reqs@
    }

    /// The transport-specific reserved space at the front of the buffer.
    pub closed spec fn prefix_len(&self) -> int {
        self.prefix as int
    }

    /// Every byte staged so far.
    pub closed spec fn wire(&self) -> Seq<u8> {
        self.buf.all_bytes()
    }

    /// The destination table: entry `i` is the length registered by the
    /// `i`-th read.
    pub closed spec fn table(&self) -> Seq<u32> {
        self.dest_lens@
    }

    /// The buffer's own internal consistency.
    pub closed spec fn buf_wf(&self) -> bool {
        self.buf.wf()
    }

    pub open spec fn wf(&self) -> bool {
        &&& self.buf_wf()
        &&& 0 <= self.prefix_len()
        &&& reqs_wf(self.requests())
        &&& self.wire() == zero_bytes(self.prefix_len()) + batch_wire(self.requests())
        &&& self.table() == read_lens(self.requests())
        &&& self.table().len() < 0x1_0000_0000
    }

    /// An empty batch whose buffer starts with `prefix` reserved zero bytes.
    pub fn new(prefix: usize) -> (b: Batch)
        ensures
            b.wf(),
            b.requests() == Seq::<Request>::empty(),
            b.prefix_len() == prefix,
            b.wire() == zero_bytes(prefix as int),
    {
        let lead: Vec<u8> = vec![0u8; prefix];
        proof {
            assert(lead@ =~= zero_bytes(prefix as int));
        }
        let b = Batch {
            buf: Buffer::from_bytes(lead),
            dest_lens: Vec::new(),
            prefix,
            reqs: Ghost(Seq::empty()),
        };
        proof {
            assert(b.wire() =~= zero_bytes(prefix as int) + batch_wire(b.requests()));
            assert(b.table() =~= read_lens(b.requests()));
        }
        b
    }

    /// Appends a read request: a new destination-table entry is made for it
    /// and the entry's index goes on the wire as the read's `target`,
    /// followed by `len` placeholder body bytes. Reports the bytes staged.
    pub fn add_read(&mut self, offset: u16, len: u32) -> (n: usize)
        requires
            old(self).wf(),
            old(self).table().len() < 0xffff_ffff,
            len + 16 <= usize::MAX,
        ensures
            final(self).wf(),
            final(self).requests() == old(self).requests().push(Request::Read { offset, len }),
            final(self).prefix_len() == old(self).prefix_len(),
            final(self).table() == old(self).table().push(len),
            final(self).wire() == old(self).wire() + req_wire(
                Request::Read { offset, len },
                old(self).table().len(),
            ),
            n == 16 + len,
    {
        let idx: u32 = self.dest_lens.len() as u32;
        self.dest_lens.push(len);
        let n = self.buf.write_rsd(offset, idx, len);
        proof {
            let r = Request::Read { offset, len };
            let prior = old(self).requests();
            self.reqs@ = prior.push(r);
            assert(prior.push(r).drop_last() =~= prior);
            assert(read_lens(prior.push(r)) =~= read_lens(prior).push(len));
            assert(forall|i: int|
                0 <= i < prior.push(r).len() ==> req_wf(#[trigger] prior.push(r)[i]));
            assert(self.wire() =~= zero_bytes(self.prefix_len()) + batch_wire(self.requests()));
            assert(self.wire() =~= old(self).wire() + req_wire(r, old(self).table().len()));
        }
        n
    }

    /// Appends a write request: its header, then the body copied from `src`.
    /// Reports the bytes staged.
    pub fn add_write(&mut self, offset: u16, src: &Vec<u8>) -> (n: usize)
        requires
            old(self).wf(),
            src.len() < 0x1_0000_0000,
            src.len() + 12 <= usize::MAX,
        ensures
            final(self).wf(),
            final(self).requests() == old(self).requests().push(
                Request::Write { offset, data: src@ },
            ),
            final(self).prefix_len() == old(self).prefix_len(),
            final(self).table() == old(self).table(),
            final(self).wire() == old(self).wire() + req_wire(
                Request::Write { offset, data: src@ },
                old(self).table().len(),
            ),
            n == 12 + src.len(),
    {
        let n = self.buf.write_wsd(offset, src);
        proof {
            let r = Request::Write { offset, data: src@ };
            let prior = old(self).requests();
            self.reqs@ = prior.push(r);
            assert(prior.push(r).drop_last() =~= prior);
            assert(read_lens(prior.push(r)) =~= read_lens(prior));
            assert(forall|i: int|
                0 <= i < prior.push(r).len() ==> req_wf(#[trigger] prior.push(r)[i]));
            assert(self.wire() =~= zero_bytes(self.prefix_len()) + batch_wire(self.requests()));
            assert(self.wire() =~= old(self).wire() + req_wire(r, old(self).table().len()));
        }
        n
    }

    /// Seals the batch by appending the termination mark. The batch can no
    /// longer grow; what remains is to exchange it and scatter the response.
    pub fn seal(self) -> (s: SealedBatch)
        requires
            self.wf(),
        ensures
            s.wf(),
            s.requests() == self.requests(),
            s.prefix_len() == self.prefix_len(),
            s.table() == self.table(),
            s.wire() == self.wire() + header_wire(MsgHeader::TerminationMark),
    {
        let Batch { mut buf, dest_lens, prefix, reqs } = self;
        buf.write_header(&MsgHeader::TerminationMark);
        SealedBatch { buf, dest_lens, prefix, reqs }
    }
}

/// A sealed batch: the complete wire message and the destination table that
/// resolves its reads' `target` indices.
pub struct SealedBatch {
    buf: Buffer,
    dest_lens: Vec<u32>,
    prefix: usize,
    reqs: Ghost<Seq<Request>>,
}

impl SealedBatch {
    /// The requests the batch was built from, in order.
    pub closed spec fn requests(&self) -> Seq<Request> {
        self.reqs@
    }

    /// The transport-specific reserved space at the front of the buffer.
    pub closed spec fn prefix_len(&self) -> int {
        self.prefix as int
    }

    /// The complete outgoing message.
    pub closed spec fn wire(&self) -> Seq<u8> {
        self.buf.all_bytes()
    }

    /// The destination table.
    pub closed spec fn table(&self) -> Seq<u32> {
        self.dest_lens@
    }

    /// The buffer's own internal consistency.
    pub closed spec fn buf_wf(&self) -> bool {
        self.buf.wf()
    }

    pub open spec fn wf(&self) -> bool {
        &&& self.buf_wf()
        &&& 0 <= self.prefix_len()
        &&& reqs_wf(self.requests())
        &&& self.wire() == zero_bytes(self.prefix_len()) + batch_wire(self.requests())
            + header_wire(MsgHeader::TerminationMark)
        &&& self.table() == read_lens(self.requests())
        &&& self.table().len() < 0x1_0000_0000
    }

    /// The total size of the message as sent, reserved prefix included.
    pub fn total(&self) -> (n: usize)
        ensures
            n == self.wire().len(),
    {
        self.buf.len()
    }

    /// Borrows the sealed message, as a transport hands it to the host.
    pub fn wire_bytes(&self) -> (r: &Vec<u8>)
        ensures
            r@ == self.wire(),
    {
        self.buf.bytes()
    }

    /// Gives the sealed message up, as the rejected-batch report keeps it.
    pub fn into_wire(self) -> (r: Vec<u8>)
        ensures
            r@ == self.wire(),
    {
        self.buf.into_bytes()
    }
}

/// What scanning a response stream yields.
pub enum ScanOutcome {
    /// The stream ended inside a header or a body.
    Short,
    /// A header carried an unknown tag; the tag word is kept.
    Corrupt(u32),
    /// The batch scanned cleanly up to its termination mark: each read, in
    /// stream order, as its `target` word and its body bytes.
    Done(Seq<(u32, Seq<u8>)>),
}

/// Scanning a response from byte `pos`: headers are decoded in sequence,
/// each read's body is collected under its `target` word, each write's
/// echoed body is skipped, and the termination mark stops the scan.
pub open spec fn spec_scan(s: Seq<u8>, pos: int) -> ScanOutcome
    decreases s.len() - pos,
{
    match spec_decode_header(s, pos) {
        DecodedHeader::TooShort => ScanOutcome::Short,
        DecodedHeader::BadTag(t) => ScanOutcome::Corrupt(t),
        DecodedHeader::Found(h, n) => {
            if h is TerminationMark {
                ScanOutcome::Done(Seq::empty())
            } else {
                let end = pos + n + body_len(h);
                if pos < end <= s.len() {
                    match spec_scan(s, end) {
                        ScanOutcome::Done(hits) => match h {
                            MsgHeader::ReadStateData { target, .. } => ScanOutcome::Done(
                                seq![(target, s.subrange(pos + n, end))] + hits,
                            ),
                            _ => ScanOutcome::Done(hits),
                        },
                        other => other,
                    }
                } else {
                    ScanOutcome::Short
                }
            }
        },
    }
}

/// Reads already collected, put in front of the rest of a scan.
pub open spec fn scan_prepend(acc: Seq<(u32, Seq<u8>)>, rest: ScanOutcome) -> ScanOutcome {
    match rest {
        ScanOutcome::Done(hits) => ScanOutcome::Done(acc + hits),
        other => other,
    }
}

/// A destination of `reg` bytes after `body` lands in it: the body,
/// truncated to the destination or padded with the zeros that were never
/// overwritten.
pub open spec fn slot_fill(reg: int, body: Seq<u8>) -> Seq<u8>
    recommends
        reg >= 0,
{
    if body.len() >= reg {
        body.subrange(0, reg)
    } else {
        body + zero_bytes(reg - body.len())
    }
}

/// Fresh destinations, one per table entry, all zeros.
pub open spec fn zero_slots(lens: Seq<u32>) -> Seq<Seq<u8>> {
    Seq::new(lens.len(), |i: int| zero_bytes(lens[i] as int))
}

/// What resolving scanned reads against the destination table yields.
pub enum ApplyOutcome {
    /// A read's `target` word was no index of the table.
    BadIndex(u32),
    /// Every destination, after the reads landed in issuance order.
    Applied(Seq<Seq<u8>>),
}

/// Resolves each scanned read in stream order: its `target` word indexes
/// the destination table, and its body lands in that destination. The first
/// unresolvable index stops everything.
pub open spec fn spec_apply(hits: Seq<(u32, Seq<u8>)>, lens: Seq<u32>) -> ApplyOutcome
    decreases hits.len(),
{
    if hits.len() == 0 {
        ApplyOutcome::Applied(zero_slots(lens))
    } else {
        match spec_apply(hits.drop_last(), lens) {
            ApplyOutcome::BadIndex(t) => ApplyOutcome::BadIndex(t),
            ApplyOutcome::Applied(tbl) => {
                let target = hits.last().0;
                let body = hits.last().1;
                if target >= lens.len() {
                    ApplyOutcome::BadIndex(target)
                } else {
                    ApplyOutcome::Applied(
                        tbl.update(target as int, slot_fill(lens[target as int] as int, body)),
                    )
                }
            },
        }
    }
}

/// The scanned reads a vector of collected pairs stands for.
pub open spec fn hits_view(hits: Seq<(u32, Vec<u8>)>) -> Seq<(u32, Seq<u8>)> {
    hits.map_values(|p: (u32, Vec<u8>)| (p.0, p.1@))
}

/// A successful resolution keeps one destination per table entry, each of
/// its registered length.
pub proof fn lemma_apply_lens(hits: Seq<(u32, Seq<u8>)>, lens: Seq<u32>, tbl: Seq<Seq<u8>>)
    requires
        spec_apply(hits, lens) == ApplyOutcome::Applied(tbl),
    ensures
        tbl.len() == lens.len(),
        forall|i: int| 0 <= i < tbl.len() ==> (#[trigger] tbl[i]).len() == lens[i],
    decreases hits.len(),
{
    if hits.len() == 0 {
    } else {
        match spec_apply(hits.drop_last(), lens) {
            ApplyOutcome::Applied(prev) => {
                lemma_apply_lens(hits.drop_last(), lens, prev);
            },
            ApplyOutcome::BadIndex(_) => {},
        }
    }
}

/// A resolution that already failed stays failed however many reads follow.
proof fn lemma_apply_error(hits: Seq<(u32, Seq<u8>)>, lens: Seq<u32>, i: int, t: u32)
    requires
        0 <= i <= hits.len(),
        spec_apply(hits.subrange(0, i), lens) == ApplyOutcome::BadIndex(t),
    ensures
        spec_apply(hits, lens) == ApplyOutcome::BadIndex(t),
    decreases hits.len(),
{
    if i == hits.len() {
        assert(hits.subrange(0, i) =~= hits);
    } else {
        assert(hits.drop_last().subrange(0, i) =~= hits.subrange(0, i));
        lemma_apply_error(hits.drop_last(), lens, i, t);
    }
}

impl SealedBatch {
    /// Scans a host-overwritten response buffer from past the reserved
    /// prefix and fans each read's bytes out to the destination its
    /// `target` index names, in stream order. Destination `i` of the result
    /// holds what the response assigned it, or its original zeros if no
    /// read named it. Fails without any destination when the response ends
    /// early (`UnexpectedEof`), a tag is unknown, or an index is out of
    /// range (framing faults carrying the offending word).
    pub fn scatter(&self, response: &Vec<u8>) -> (r: Result<Vec<Vec<u8>>, IpcError>)
        requires
            self.wf(),
        ensures
            spec_scan(response@, self.prefix_len()) is Short ==> (r matches Err(e) && e
                is UnexpectedEof),
            spec_scan(response@, self.prefix_len()) matches ScanOutcome::Corrupt(t) ==> (r matches
                Err(e) && e matches IpcError::FramingError(f) && f == FramingFault::UnknownTag(t)),
            (spec_scan(response@, self.prefix_len()) matches ScanOutcome::Done(hits) ==> match
                spec_apply(hits, self.table()) {
                ApplyOutcome::BadIndex(t) => r matches Err(e) && e matches IpcError::FramingError(
                    f,
                ) && f == FramingFault::InvalidIndex(t),
                ApplyOutcome::Applied(tbl) => r matches Ok(v) && v.deep_view() == tbl,
            }),
    {
        let mut data: Vec<u8> = Vec::new();
        let rlen: usize = response.len();
        let mut i: usize = 0;
        while i < rlen
            invariant
                i <= rlen,
                rlen == response@.len(),
                data@ =~= response@.subrange(0, i as int),
            decreases rlen - i,
        {
            data.push(response[i]);
            i = i + 1;
        }
        proof {
            assert(data@ =~= response@);
        }
        let mut cur = Buffer::from_bytes(data);
        if cur.len() < self.prefix {
            return Err(IpcError::UnexpectedEof);
        }
        cur.seek(self.prefix);
        let mut hits: Vec<(u32, Vec<u8>)> = Vec::new();
        loop
            invariant_except_break
                cur.wf(),
                cur.all_bytes() == response@,
                self.prefix_len() <= cur.position(),
                scan_prepend(hits_view(hits@), spec_scan(response@, cur.position())) == spec_scan(
                    response@,
                    self.prefix_len(),
                ),
            ensures
                spec_scan(response@, self.prefix_len()) == ScanOutcome::Done(hits_view(hits@)),
            decreases response@.len() - cur.position(),
        {
            let ghost pos0 = cur.position();
            let h = match cur.read_header() {
                Ok((h, _)) => h,
                Err(e) => {
                    return Err(e);
                },
            };
            match h {
                MsgHeader::TerminationMark => {
                    proof {
                        assert(hits_view(hits@) + Seq::<(u32, Seq<u8>)>::empty() =~= hits_view(
                            hits@,
                        ));
                    }
                    break ;
                },
                MsgHeader::ReadStateData { len, target, .. } => {
                    let ghost pos1 = cur.position();
                    let ghost end = pos1 + len as int;
                    let mut out = MutRawBytes::new(vec![0u8; len as usize]);
                    match cur.read_body(&h, &mut out) {
                        Ok(_) => {},
                        Err(e) => {
                            return Err(e);
                        },
                    }
                    let body = out.into_inner();
                    proof {
                        assert(body@ =~= response@.subrange(pos1, end));
                        let hit = (target, response@.subrange(pos1, end));
                        assert(hits_view(hits@.push((target, body))) =~= hits_view(hits@) + seq![
                            hit,
                        ]);
                        match spec_scan(response@, end) {
                            ScanOutcome::Done(hs) => {
                                assert(spec_scan(response@, pos0) == ScanOutcome::Done(
                                    seq![hit] + hs,
                                ));
                                assert(hits_view(hits@) + (seq![hit] + hs) =~= (hits_view(hits@)
                                    + seq![hit]) + hs);
                            },
                            _ => {},
                        }
                    }
                    hits.push((target, body));
                },
                MsgHeader::WriteStateData { .. } => {
                    match cur.skip_body(&h) {
                        Ok(_) => {},
                        Err(e) => {
                            return Err(e);
                        },
                    }
                },
            }
        }
        let n_slots: usize = self.dest_lens.len();
        let mut results: Vec<Vec<u8>> = Vec::new();
        let mut j: usize = 0;
        while j < n_slots
            invariant
                j <= n_slots,
                n_slots == self.table().len(),
                results@.len() == j,
                forall|k: int|
                    0 <= k < j ==> (#[trigger] results@[k])@ == zero_bytes(self.table()[k] as int),
            decreases n_slots - j,
        {
            let cap: u32 = self.dest_lens[j];
            let slot: Vec<u8> = vec![0u8; cap as usize];
            proof {
                assert(slot@ =~= zero_bytes(cap as int));
            }
            results.push(slot);
            j = j + 1;
        }
        proof {
            assert(results.deep_view() =~~= zero_slots(self.table()));
            assert(hits_view(hits@).subrange(0, 0) =~= Seq::<(u32, Seq<u8>)>::empty());
        }
        let n_hits: usize = hits.len();
        let mut k: usize = 0;
        while k < n_hits
            invariant
                k <= n_hits,
                n_hits == hits@.len(),
                self.table().len() < 0x1_0000_0000,
                results@.len() == self.table().len(),
                spec_scan(response@, self.prefix_len()) == ScanOutcome::Done(hits_view(hits@)),
                spec_apply(hits_view(hits@).subrange(0, k as int), self.table())
                    == ApplyOutcome::Applied(results.deep_view()),
            decreases n_hits - k,
        {
            let pair: &(u32, Vec<u8>) = &hits[k];
            let target: u32 = pair.0;
            proof {
                assert(hits_view(hits@).subrange(0, k + 1).drop_last() =~= hits_view(
                    hits@,
                ).subrange(0, k as int));
                assert(hits_view(hits@).subrange(0, k + 1).last() == hits_view(hits@)[k as int]);
            }
            if target as usize >= results.len() {
                proof {
                    lemma_apply_error(hits_view(hits@), self.table(), k + 1, target);
                }
                return Err(IpcError::FramingError(FramingFault::InvalidIndex(target)));
            }
            let reg: u32 = self.dest_lens[target as usize];
            let zeroed: Vec<u8> = vec![0u8; reg as usize];
            proof {
                assert(zeroed@ =~= zero_bytes(reg as int));
            }
            let mut slot = MutRawBytes::new(zeroed);
            let _ = slot.write(pair.1.as_slice());
            let filled = slot.into_inner();
            proof {
                assert(filled@ =~= slot_fill(reg as int, pair.1@));
            }
            results.set(target as usize, filled);
            proof {
                assert(results.deep_view() =~~= spec_apply(
                    hits_view(hits@).subrange(0, k as int),
                    self.table(),
                )->Applied_0.update(target as int, slot_fill(reg as int, pair.1@)));
            }
            k = k + 1;
        }
        proof {
            assert(hits_view(hits@).subrange(0, n_hits as int) =~= hits_view(hits@));
        }
        Ok(results)
    }
}

} // verus!
