//! Laws relating batch framing, response scanning and scattering.
//!
//! A host answers a batch by overwriting the buffer in place: the headers
//! keep the framing the engine built, and each read's placeholder body is
//! replaced by result bytes. `tail_wire` describes every response of that
//! shape, with arbitrary bodies; the lemmas here show that scanning such a
//! response finds the reads in issuance order under their table indices,
//! and that scattering then lands the `i`-th read's bytes in destination
//! `i` — the guarantee the address-indirection workaround exists for.

use vstd::prelude::*;

use crate::ipc::{header_wire, lemma_decode_at, lemma_header_round_trip, zero_bytes, MsgHeader};
use crate::session::{
    batch_wire, read_lens, req_wf, reqs_wf, slot_fill, spec_apply, spec_scan, zero_slots,
    ApplyOutcome, Request, ScanOutcome,
};

verus! {

/// The lengths of the reads among `reqs[i..]`, in order.
pub open spec fn lens_from(reqs: Seq<Request>, i: int) -> Seq<u32>
    decreases reqs.len() - i,
{
    if i < 0 || i >= reqs.len() {
        Seq::empty()
    } else {
        (match reqs[i] {
            Request::Read { len, .. } => seq![len],
            Request::Write { .. } => Seq::empty(),
        }) + lens_from(reqs, i + 1)
    }
}

/// The wire bytes of `reqs[i..]` in a response, when `prior` reads precede
/// `reqs[i]` and the `k`-th read of the whole batch carries `bodies[k]` as
/// its body. The headers are exactly as the engine framed them; only the
/// read bodies differ from the sent message.
pub open spec fn tail_wire(reqs: Seq<Request>, i: int, prior: int, bodies: Seq<Seq<u8>>) -> Seq<u8>
    decreases reqs.len() - i,
{
    if i < 0 || i >= reqs.len() {
        Seq::empty()
    } else {
        (match reqs[i] {
            Request::Read { offset, len } => header_wire(
                MsgHeader::ReadStateData { offset, len, target: prior as u32 },
            ) + bodies[prior],
            Request::Write { offset, data } => header_wire(
                MsgHeader::WriteStateData { offset, len: data.len() as u32 },
            ) + data,
        }) + tail_wire(
            reqs,
            i + 1,
            if reqs[i] is Read {
                prior + 1
            } else {
                prior
            },
            bodies,
        )
    }
}

/// A stretch of an embedded byte string, cut back out of the stream.
proof fn lemma_embed_slice(s: Seq<u8>, pos: int, t: Seq<u8>, a: int, b: int)
    requires
        0 <= pos,
        0 <= a <= b <= t.len(),
        pos + t.len() <= s.len(),
        s.subrange(pos, pos + t.len()) == t,
    ensures
        s.subrange(pos + a, pos + b) == t.subrange(a, b),
{
    assert forall|k: int| 0 <= k < b - a implies #[trigger] s.subrange(pos + a, pos + b)[k]
        == t.subrange(a, b)[k] by {
        assert(s.subrange(pos, pos + t.len())[a + k] == t[a + k]);
    }
    assert(s.subrange(pos + a, pos + b) =~= t.subrange(a, b));
}

/// Appending one request leaves the read lengths of every earlier suffix
/// as they were, with the new read's length (if a read it is) at the end.
proof fn lemma_lens_from_snoc(reqs: Seq<Request>, r: Request, i: int)
    requires
        0 <= i <= reqs.len(),
    ensures
        lens_from(reqs.push(r), i) == lens_from(reqs, i) + (match r {
            Request::Read { len, .. } => seq![len],
            Request::Write { .. } => Seq::<u32>::empty(),
        }),
    decreases reqs.len() - i,
{
    let snoc = reqs.push(r);
    if i == reqs.len() {
        assert(snoc[i] == r);
        assert(lens_from(snoc, i + 1) =~= Seq::<u32>::empty());
        assert(lens_from(reqs, i) =~= Seq::<u32>::empty());
        assert(lens_from(snoc, i) =~= lens_from(reqs, i) + (match r {
            Request::Read { len, .. } => seq![len],
            Request::Write { .. } => Seq::<u32>::empty(),
        }));
    } else {
        assert(snoc[i] == reqs[i]);
        lemma_lens_from_snoc(reqs, r, i + 1);
        assert(lens_from(snoc, i) =~= lens_from(reqs, i) + (match r {
            Request::Read { len, .. } => seq![len],
            Request::Write { .. } => Seq::<u32>::empty(),
        }));
    }
}

/// The destination table of a batch, read off the front: the engine's
/// back-to-front `read_lens` and the scan's front-to-back `lens_from`
/// name the same lengths.
pub proof fn lemma_read_lens_front(reqs: Seq<Request>)
    ensures
        read_lens(reqs) == lens_from(reqs, 0),
    decreases reqs.len(),
{
    if reqs.len() == 0 {
        assert(read_lens(reqs) =~= lens_from(reqs, 0));
    } else {
        lemma_read_lens_front(reqs.drop_last());
        lemma_lens_from_snoc(reqs.drop_last(), reqs.last(), 0);
        assert(reqs.drop_last().push(reqs.last()) =~= reqs);
        assert(read_lens(reqs) =~= lens_from(reqs, 0));
    }
}

/// The wire of a request run reads nothing of the bodies past its own reads.
proof fn lemma_tail_agree(reqs: Seq<Request>, i: int, prior: int, b1: Seq<Seq<u8>>, b2: Seq<
    Seq<u8>,
>)
    requires
        0 <= i <= reqs.len(),
        0 <= prior,
        forall|j: int| prior <= j < prior + lens_from(reqs, i).len() ==> b1[j] == #[trigger] b2[j],
    ensures
        tail_wire(reqs, i, prior, b1) == tail_wire(reqs, i, prior, b2),
    decreases reqs.len() - i,
{
    if i < reqs.len() {
        assert(lens_from(reqs, i) =~= (match reqs[i] {
            Request::Read { len, .. } => seq![len],
            Request::Write { .. } => Seq::<u32>::empty(),
        }) + lens_from(reqs, i + 1));
        if reqs[i] is Read {
            assert(b1[prior] == b2[prior]);
            lemma_tail_agree(reqs, i + 1, prior + 1, b1, b2);
        } else {
            lemma_tail_agree(reqs, i + 1, prior, b1, b2);
        }
    }
}

/// Appending one request appends exactly its own wire, under the next
/// free destination-table index.
proof fn lemma_tail_snoc(reqs: Seq<Request>, r: Request, i: int, prior: int, bodies: Seq<Seq<u8>>)
    requires
        0 <= i <= reqs.len(),
        0 <= prior,
    ensures
        tail_wire(reqs.push(r), i, prior, bodies) == tail_wire(reqs, i, prior, bodies) + (match r {
            Request::Read { offset, len } => header_wire(
                MsgHeader::ReadStateData {
                    offset,
                    len,
                    target: (prior + lens_from(reqs, i).len()) as u32,
                },
            ) + bodies[prior + lens_from(reqs, i).len()],
            Request::Write { offset, data } => header_wire(
                MsgHeader::WriteStateData { offset, len: data.len() as u32 },
            ) + data,
        }),
    decreases reqs.len() - i,
{
    let snoc = reqs.push(r);
    let last_part = (match r {
        Request::Read { offset, len } => header_wire(
            MsgHeader::ReadStateData {
                offset,
                len,
                target: (prior + lens_from(reqs, i).len()) as u32,
            },
        ) + bodies[prior + lens_from(reqs, i).len()],
        Request::Write { offset, data } => header_wire(
            MsgHeader::WriteStateData { offset, len: data.len() as u32 },
        ) + data,
    });
    if i == reqs.len() {
        assert(snoc[i] == r);
        assert(lens_from(reqs, i) =~= Seq::<u32>::empty());
        assert(tail_wire(snoc, i + 1, prior + 1, bodies) =~= Seq::<u8>::empty());
        assert(tail_wire(snoc, i + 1, prior, bodies) =~= Seq::<u8>::empty());
        assert(tail_wire(reqs, i, prior, bodies) =~= Seq::<u8>::empty());
        assert(tail_wire(snoc, i, prior, bodies) =~= tail_wire(reqs, i, prior, bodies)
            + last_part);
    } else {
        assert(snoc[i] == reqs[i]);
        assert(lens_from(reqs, i) =~= (match reqs[i] {
            Request::Read { len, .. } => seq![len],
            Request::Write { .. } => Seq::<u32>::empty(),
        }) + lens_from(reqs, i + 1));
        if reqs[i] is Read {
            lemma_tail_snoc(reqs, r, i + 1, prior + 1, bodies);
        } else {
            lemma_tail_snoc(reqs, r, i + 1, prior, bodies);
        }
        assert(tail_wire(snoc, i, prior, bodies) =~= tail_wire(reqs, i, prior, bodies)
            + last_part);
    }
}

/// The message a batch builds is exactly the response shape whose read
/// bodies are the placeholder zeros: what goes on the wire is the scan
/// shape, before the host has touched it.
pub proof fn lemma_batch_wire_zero_tail(reqs: Seq<Request>)
    ensures
        batch_wire(reqs) == tail_wire(reqs, 0, 0, zero_slots(read_lens(reqs))),
    decreases reqs.len(),
{
    if reqs.len() == 0 {
        assert(batch_wire(reqs) =~= tail_wire(reqs, 0, 0, zero_slots(read_lens(reqs))));
    } else {
        let pre = reqs.drop_last();
        let r = reqs.last();
        lemma_batch_wire_zero_tail(pre);
        lemma_read_lens_front(pre);
        assert(pre.push(r) =~= reqs);
        assert(read_lens(reqs) =~= read_lens(pre) + (match r {
            Request::Read { len, .. } => seq![len],
            Request::Write { .. } => Seq::<u32>::empty(),
        }));
        let zb_new = zero_slots(read_lens(reqs));
        let zb_old = zero_slots(read_lens(pre));
        lemma_tail_snoc(pre, r, 0, 0, zb_new);
        assert forall|j: int| 0 <= j < 0 + lens_from(pre, 0).len() implies zb_old[j]
            == #[trigger] zb_new[j] by {
            assert(read_lens(reqs)[j] == read_lens(pre)[j]);
        }
        lemma_tail_agree(pre, 0, 0, zb_old, zb_new);
        match r {
            Request::Read { offset, len } => {
                assert(zb_new[read_lens(pre).len() as int] =~= zero_bytes(len as int));
                assert(batch_wire(reqs) =~= tail_wire(reqs, 0, 0, zb_new));
            },
            Request::Write { offset, data } => {
                assert(batch_wire(reqs) =~= tail_wire(reqs, 0, 0, zb_new));
            },
        }
    }
}

/// Scanning a response of the batch's shape finds exactly its reads, in
/// stream order, each under its destination-table index and with the body
/// the response carried for it.
#[verifier::rlimit(80)]
#[verifier::spinoff_prover]
proof fn lemma_scan_tail(s: Seq<u8>, pos: int, reqs: Seq<Request>, i: int, prior: int, bodies: Seq<
    Seq<u8>,
>)
    requires
        reqs_wf(reqs),
        0 <= i <= reqs.len(),
        0 <= prior,
        prior + lens_from(reqs, i).len() <= bodies.len(),
        prior + lens_from(reqs, i).len() < 0x1_0000_0000,
        forall|j: int|
            0 <= j < lens_from(reqs, i).len() ==> (#[trigger] bodies[prior + j]).len()
                == lens_from(reqs, i)[j],
        0 <= pos,
        s.len() == pos + tail_wire(reqs, i, prior, bodies).len() + 4,
        s.subrange(pos, s.len() as int) == tail_wire(reqs, i, prior, bodies) + header_wire(
            MsgHeader::TerminationMark,
        ),
    ensures
        spec_scan(s, pos) == ScanOutcome::Done(
            Seq::new(
                lens_from(reqs, i).len(),
                |j: int| (((prior + j) as u32), bodies[prior + j]),
            ),
        ),
    decreases reqs.len() - i,
{
    let t = tail_wire(reqs, i, prior, bodies) + header_wire(MsgHeader::TerminationMark);
    lemma_header_round_trip(MsgHeader::TerminationMark);
    assert(s.subrange(pos, pos + t.len()) == t);
    if i == reqs.len() {
        assert(tail_wire(reqs, i, prior, bodies) =~= Seq::<u8>::empty());
        assert(t =~= header_wire(MsgHeader::TerminationMark));
        lemma_decode_at(s, pos, MsgHeader::TerminationMark);
        assert(spec_scan(s, pos) == ScanOutcome::Done(Seq::<(u32, Seq<u8>)>::empty()));
        assert(Seq::new(
            lens_from(reqs, i).len(),
            |j: int| (((prior + j) as u32), bodies[prior + j]),
        ) =~= Seq::<(u32, Seq<u8>)>::empty());
    } else {
        match reqs[i] {
            Request::Read { offset, len } => {
                let h = MsgHeader::ReadStateData { offset, len, target: prior as u32 };
                lemma_header_round_trip(h);
                let hw = header_wire(h);
                let body0 = bodies[prior];
                let rest = tail_wire(
                    reqs,
                    i + 1,
                    prior + 1,
                    bodies,
                );
                assert(tail_wire(reqs, i, prior, bodies) == (hw + body0) + rest);
                assert(lens_from(reqs, i) =~= seq![len] + lens_from(reqs, i + 1));
                assert(bodies[prior + 0].len() == lens_from(reqs, i)[0]);
                assert(body0.len() == len);
                lemma_embed_slice(s, pos, t, 0, 16);
                assert(t.subrange(0, 16) =~= hw);
                lemma_decode_at(s, pos, h);
                let end = pos + 16 + len;
                lemma_embed_slice(s, pos, t, 16, 16 + len as int);
                assert(t.subrange(16, 16 + len as int) =~= body0);
                assert(s.subrange(pos + 16, end) == body0);
                lemma_embed_slice(s, pos, t, 16 + len as int, t.len() as int);
                assert(t.subrange(16 + len as int, t.len() as int) =~= rest + header_wire(
                    MsgHeader::TerminationMark,
                ));
                assert forall|j: int|
                    0 <= j < lens_from(reqs, i + 1).len() implies (#[trigger] bodies[prior + 1
                    + j]).len() == lens_from(reqs, i + 1)[j] by {
                    assert(bodies[prior + (j + 1)].len() == lens_from(reqs, i)[j + 1]);
                }
                lemma_scan_tail(s, end, reqs, i + 1, prior + 1, bodies);
                let hits_rest = Seq::new(
                    lens_from(reqs, i + 1).len(),
                    |j: int| (((prior + 1 + j) as u32), bodies[prior + 1 + j]),
                );
                assert(spec_scan(s, pos) == ScanOutcome::Done(
                    seq![((prior as u32), body0)] + hits_rest,
                ));
                assert(Seq::new(
                    lens_from(reqs, i).len(),
                    |j: int| (((prior + j) as u32), bodies[prior + j]),
                ) =~= seq![((prior as u32), body0)] + hits_rest);
            },
            Request::Write { offset, data } => {
                assert(req_wf(reqs[i]));
                let h = MsgHeader::WriteStateData { offset, len: data.len() as u32 };
                lemma_header_round_trip(h);
                let hw = header_wire(h);
                let rest = tail_wire(reqs, i + 1, prior, bodies);
                assert(tail_wire(reqs, i, prior, bodies) == (hw + data) + rest);
                assert(lens_from(reqs, i) =~= lens_from(reqs, i + 1));
                lemma_embed_slice(s, pos, t, 0, 12);
                assert(t.subrange(0, 12) =~= hw);
                lemma_decode_at(s, pos, h);
                let end = pos + 12 + data.len() as int;
                lemma_embed_slice(s, pos, t, 12 + data.len() as int, t.len() as int);
                assert(t.subrange(12 + data.len() as int, t.len() as int) =~= rest + header_wire(
                    MsgHeader::TerminationMark,
                ));
                lemma_scan_tail(s, end, reqs, i + 1, prior, bodies);
                assert(spec_scan(s, pos) == ScanOutcome::Done(
                    Seq::new(
                        lens_from(reqs, i + 1).len(),
                        |j: int| (((prior + j) as u32), bodies[prior + j]),
                    ),
                ));
                assert(Seq::new(
                    lens_from(reqs, i).len(),
                    |j: int| (((prior + j) as u32), bodies[prior + j]),
                ) =~= Seq::new(
                    lens_from(reqs, i + 1).len(),
                    |j: int| (((prior + j) as u32), bodies[prior + j]),
                ));
            },
        }
    }
}

/// Resolving reads that carry their own indices in order fills each
/// destination with its own read's body, and touches no other.
proof fn lemma_apply_identity(bodies: Seq<Seq<u8>>, lens: Seq<u32>, k: int)
    requires
        bodies.len() == lens.len(),
        lens.len() < 0x1_0000_0000,
        forall|j: int| 0 <= j < bodies.len() ==> (#[trigger] bodies[j]).len() == lens[j],
        0 <= k <= bodies.len(),
    ensures
        spec_apply(Seq::new(k as nat, |j: int| ((j as u32), bodies[j])), lens)
            == ApplyOutcome::Applied(
            Seq::new(
                lens.len(),
                |i: int|
                    if i < k {
                        bodies[i]
                    } else {
                        zero_bytes(lens[i] as int)
                    },
            ),
        ),
    decreases k,
{
    let hits = Seq::new(k as nat, |j: int| ((j as u32), bodies[j]));
    if k == 0 {
        assert(hits =~= Seq::<(u32, Seq<u8>)>::empty());
        assert(zero_slots(lens) =~= Seq::new(
            lens.len(),
            |i: int|
                if i < 0 {
                    bodies[i]
                } else {
                    zero_bytes(lens[i] as int)
                },
        ));
    } else {
        lemma_apply_identity(bodies, lens, k - 1);
        let prev_hits = Seq::new((k - 1) as nat, |j: int| ((j as u32), bodies[j]));
        assert(hits.drop_last() =~= prev_hits);
        assert(hits.last() == (((k - 1) as u32), bodies[k - 1]));
        assert(slot_fill(lens[k - 1] as int, bodies[k - 1]) =~= bodies[k - 1]);
        let prev_tbl = Seq::new(
            lens.len(),
            |i: int|
                if i < k - 1 {
                    bodies[i]
                } else {
                    zero_bytes(lens[i] as int)
                },
        );
        assert(prev_tbl.update(k - 1, bodies[k - 1]) =~= Seq::new(
            lens.len(),
            |i: int|
                if i < k {
                    bodies[i]
                } else {
                    zero_bytes(lens[i] as int)
                },
        ));
    }
}

/// Address-indirection, end to end: a batch of N reads records table
/// entries 0..N-1 in issuance order, and scanning any response that keeps
/// the batch's framing and carries `bodies[k]` as the body of the `k`-th
/// read finds each read under its own index, so that scattering lands
/// `bodies[k]` in destination `k` and nowhere else — even when two reads
/// name the same offset and length.
pub proof fn lemma_indirection_scatter(
    reqs: Seq<Request>,
    bodies: Seq<Seq<u8>>,
    prefix: int,
    s: Seq<u8>,
)
    requires
        reqs_wf(reqs),
        0 <= prefix,
        bodies.len() == read_lens(reqs).len(),
        bodies.len() < 0x1_0000_0000,
        forall|j: int| 0 <= j < bodies.len() ==> (#[trigger] bodies[j]).len() == read_lens(reqs)[j],
        s.len() == prefix + tail_wire(reqs, 0, 0, bodies).len() + 4,
        s.subrange(prefix, s.len() as int) == tail_wire(reqs, 0, 0, bodies) + header_wire(
            MsgHeader::TerminationMark,
        ),
    ensures
        spec_scan(s, prefix) == ScanOutcome::Done(
            Seq::new(bodies.len(), |j: int| ((j as u32), bodies[j])),
        ),
        spec_apply(Seq::new(bodies.len(), |j: int| ((j as u32), bodies[j])), read_lens(reqs))
            == ApplyOutcome::Applied(bodies),
{
    lemma_read_lens_front(reqs);
    lemma_scan_tail(s, prefix, reqs, 0, 0, bodies);
    assert(Seq::new(
        lens_from(reqs, 0).len(),
        |j: int| (((0 + j) as u32), bodies[0 + j]),
    ) =~= Seq::new(bodies.len(), |j: int| ((j as u32), bodies[j])));
    lemma_apply_identity(bodies, read_lens(reqs), bodies.len() as int);
    assert(Seq::new(
        read_lens(reqs).len(),
        |i: int|
            if i < bodies.len() {
                bodies[i]
            } else {
                zero_bytes(read_lens(reqs)[i] as int)
            },
    ) =~= bodies);
}

} // verus!
