//! The message codec: framing of request/response headers and bodies.
//!
//! Every message is a run of headers, each followed by its body, closed by a
//! termination mark. A header is up to four little-endian 32-bit words: an
//! operation tag, the state offset widened to 32 bits, the body length
//! widened to 32 bits, and — for a read — a fourth word carrying the
//! destination reference. The termination mark is the tag word alone.

use vstd::bytes::{
    lemma_auto_spec_u32_to_from_le_bytes, spec_u32_from_le_bytes, spec_u32_to_le_bytes,
    u32_from_le_bytes, u32_to_le_bytes,
};
use vstd::prelude::*;

use crate::errors::{FramingFault, IpcError};
use crate::raw::{MutRawBytes, RawBytes};

verus! {

/// Wire tag of the termination mark.
pub const FS6IPC_TERMINATIONMARK_ID: u32 = 0;

/// Wire tag of a read-state-data request.
pub const FS6IPC_READSTATEDATA_ID: u32 = 1;

/// Wire tag of a write-state-data request.
pub const FS6IPC_WRITESTATEDATA_ID: u32 = 2;

/// The header of one message in a batch.
#[derive(Debug, Clone, Copy, PartialEq, Eq, Structural)]
pub enum MsgHeader {
    /// Read `len` bytes of host state at `offset`; `target` is the wire
    /// word naming where the result goes (a destination-table index, or a
    /// raw address on a platform whose addresses fit the wire field).
    ReadStateData { offset: u16, len: u32, target: u32 },
    /// Write the `len` body bytes that follow to host state at `offset`.
    WriteStateData { offset: u16, len: u32 },
    /// End of the batch; carries no body.
    TerminationMark,
}

/// The little-endian word starting at byte `pos` of `s`.
pub open spec fn word_at(s: Seq<u8>, pos: int) -> u32 {
    spec_u32_from_le_bytes(s.subrange(pos, pos + 4))
}

/// The exact byte encoding of a header.
pub open spec fn header_wire(h: MsgHeader) -> Seq<u8> {
    match h {
        MsgHeader::ReadStateData { offset, len, target } => spec_u32_to_le_bytes(
            FS6IPC_READSTATEDATA_ID,
        ) + spec_u32_to_le_bytes(offset as u32) + spec_u32_to_le_bytes(len)
            + spec_u32_to_le_bytes(target),
        MsgHeader::WriteStateData { offset, len } => spec_u32_to_le_bytes(FS6IPC_WRITESTATEDATA_ID)
            + spec_u32_to_le_bytes(offset as u32) + spec_u32_to_le_bytes(len),
        MsgHeader::TerminationMark => spec_u32_to_le_bytes(FS6IPC_TERMINATIONMARK_ID),
    }
}

/// How many bytes a header occupies on the wire.
pub open spec fn header_wire_len(h: MsgHeader) -> int {
    match h {
        MsgHeader::ReadStateData { .. } => 16,
        MsgHeader::WriteStateData { .. } => 12,
        MsgHeader::TerminationMark => 4,
    }
}

/// How many body bytes follow a header.
pub open spec fn body_len(h: MsgHeader) -> int {
    match h {
        MsgHeader::ReadStateData { len, .. } => len as int,
        MsgHeader::WriteStateData { len, .. } => len as int,
        MsgHeader::TerminationMark => 0,
    }
}

/// `n` zero bytes, the placeholder body of a read request.
pub open spec fn zero_bytes(n: int) -> Seq<u8> {
    Seq::new(n as nat, |i: int| 0u8)
}

/// What decoding one header from byte `pos` of stream `s` yields.
pub enum DecodedHeader {
    /// The stream ends before the header does.
    TooShort,
    /// The tag word is none of the three known tags.
    BadTag(u32),
    /// A header, and the count of bytes it occupied.
    Found(MsgHeader, int),
}

/// Decoding one header from byte `pos` of stream `s`: the tag word selects
/// the variant and how many further words belong to the header; the offset
/// word is truncated to its 16 significant bits.
pub open spec fn spec_decode_header(s: Seq<u8>, pos: int) -> DecodedHeader
    recommends
        0 <= pos <= s.len(),
{
    if s.len() < pos + 4 {
        DecodedHeader::TooShort
    } else {
        let tag = word_at(s, pos);
        if tag == FS6IPC_READSTATEDATA_ID {
            if s.len() < pos + 16 {
                DecodedHeader::TooShort
            } else {
                DecodedHeader::Found(
                    MsgHeader::ReadStateData {
                        offset: (word_at(s, pos + 4) % 0x10000) as u16,
                        len: word_at(s, pos + 8),
                        target: word_at(s, pos + 12),
                    },
                    16,
                )
            }
        } else if tag == FS6IPC_WRITESTATEDATA_ID {
            if s.len() < pos + 12 {
                DecodedHeader::TooShort
            } else {
                DecodedHeader::Found(
                    MsgHeader::WriteStateData {
                        offset: (word_at(s, pos + 4) % 0x10000) as u16,
                        len: word_at(s, pos + 8),
                    },
                    12,
                )
            }
        } else if tag == FS6IPC_TERMINATIONMARK_ID {
            DecodedHeader::Found(MsgHeader::TerminationMark, 4)
        } else {
            DecodedHeader::BadTag(tag)
        }
    }
}

/// One aligned word of an embedded byte string, cut back out of the stream.
proof fn lemma_word_slice(s: Seq<u8>, pos: int, hw: Seq<u8>, a: int)
    requires
        0 <= pos,
        0 <= a,
        a + 4 <= hw.len(),
        pos + hw.len() <= s.len(),
        s.subrange(pos, pos + hw.len()) == hw,
    ensures
        s.subrange(pos + a, pos + a + 4) == hw.subrange(a, a + 4),
{
    assert forall|k: int| 0 <= k < 4 implies #[trigger] s.subrange(pos + a, pos + a + 4)[k]
        == hw.subrange(a, a + 4)[k] by {
        assert(s.subrange(pos, pos + hw.len())[a + k] == hw[a + k]);
    }
    assert(s.subrange(pos + a, pos + a + 4) =~= hw.subrange(a, a + 4));
}

/// Wherever a stream holds the encoding of a header, decoding at that spot
/// recovers the header and consumes exactly its wire length.
pub proof fn lemma_decode_at(s: Seq<u8>, pos: int, h: MsgHeader)
    requires
        0 <= pos,
        pos + header_wire_len(h) <= s.len(),
        s.subrange(pos, pos + header_wire_len(h)) == header_wire(h),
    ensures
        header_wire(h).len() == header_wire_len(h),
        spec_decode_header(s, pos) == DecodedHeader::Found(h, header_wire_len(h)),
{
    lemma_auto_spec_u32_to_from_le_bytes();
    let hw = header_wire(h);
    match h {
        MsgHeader::ReadStateData { offset, len, target } => {
            lemma_word_slice(s, pos, hw, 0);
            lemma_word_slice(s, pos, hw, 4);
            lemma_word_slice(s, pos, hw, 8);
            lemma_word_slice(s, pos, hw, 12);
            assert(hw.subrange(0, 4) =~= spec_u32_to_le_bytes(FS6IPC_READSTATEDATA_ID));
            assert(hw.subrange(4, 8) =~= spec_u32_to_le_bytes(offset as u32));
            assert(hw.subrange(8, 12) =~= spec_u32_to_le_bytes(len));
            assert(hw.subrange(12, 16) =~= spec_u32_to_le_bytes(target));
            assert(word_at(s, pos + 4) % 0x10000 == offset as u32);
        },
        MsgHeader::WriteStateData { offset, len } => {
            lemma_word_slice(s, pos, hw, 0);
            lemma_word_slice(s, pos, hw, 4);
            lemma_word_slice(s, pos, hw, 8);
            assert(hw.subrange(0, 4) =~= spec_u32_to_le_bytes(FS6IPC_WRITESTATEDATA_ID));
            assert(hw.subrange(4, 8) =~= spec_u32_to_le_bytes(offset as u32));
            assert(hw.subrange(8, 12) =~= spec_u32_to_le_bytes(len));
            assert(word_at(s, pos + 4) % 0x10000 == offset as u32);
        },
        MsgHeader::TerminationMark => {
            lemma_word_slice(s, pos, hw, 0);
            assert(hw.subrange(0, 4) =~= spec_u32_to_le_bytes(FS6IPC_TERMINATIONMARK_ID));
        },
    }
}

/// Round-trip framing: decoding an encoded header from the front of its own
/// byte string recovers the header and consumes exactly its wire length —
/// 16 bytes for a read, 12 for a write, 4 for the termination mark.
pub proof fn lemma_header_round_trip(h: MsgHeader)
    ensures
        header_wire(h).len() == header_wire_len(h),
        spec_decode_header(header_wire(h), 0) == DecodedHeader::Found(h, header_wire_len(h)),
{
    assert(header_wire(h).len() == header_wire_len(h)) by {
        lemma_auto_spec_u32_to_from_le_bytes();
    }
    assert(header_wire(h).subrange(0, header_wire_len(h)) =~= header_wire(h));
    lemma_decode_at(header_wire(h), 0, h);
}

/// One batch's worth of bytes, with a read cursor for scanning a response.
/// Writing always appends at the end; reading advances the cursor.
pub struct Buffer {
    data: Vec<u8>,
    pos: usize,
}

impl Buffer {
    /// Every byte held so far.
    pub closed spec fn all_bytes(&self) -> Seq<u8> {
        self.data@
    }

    /// Where the read cursor stands.
    pub closed spec fn position(&self) -> int {
        self.pos as int
    }

    pub open spec fn wf(&self) -> bool {
        0 <= self.position() <= self.all_bytes().len()
    }

    pub fn new() -> (r: Buffer)
        ensures
            r.wf(),
            r.all_bytes() == Seq::<u8>::empty(),
            r.position() == 0,
    {
        Buffer { data: Vec::new(), pos: 0 }
    }

    pub fn from_bytes(data: Vec<u8>) -> (r: Buffer)
        ensures
            r.wf(),
            r.all_bytes() == data@,
            r.position() == 0,
    {
        Buffer { data, pos: 0 }
    }

    pub fn len(&self) -> (n: usize)
        ensures
            n == self.all_bytes().len(),
    {
        self.data.len()
    }

    /// Moves the read cursor.
    pub fn seek(&mut self, pos: usize)
        requires
            pos <= old(self).all_bytes().len(),
        ensures
            final(self).wf(),
            final(self).all_bytes() == old(self).all_bytes(),
            final(self).position() == pos,
    {
        self.pos = pos;
    }

    /// Borrows the held bytes, as a transport hands them to the host.
    pub fn bytes(&self) -> (r: &Vec<u8>)
        ensures
            r@ == self.all_bytes(),
    {
        &self.data
    }

    /// Gives the held bytes up.
    pub fn into_bytes(self) -> (r: Vec<u8>)
        ensures
            r@ == self.all_bytes(),
    {
        self.data
    }

    /// Reads the little-endian word at byte `at` without moving the cursor.
    fn word_at_exec(&self, at: usize) -> (w: u32)
        requires
            self.wf(),
            at + 4 <= self.all_bytes().len(),
        ensures
            w == word_at(self.all_bytes(), at as int),
    {
        let total: usize = self.data.len();
        assert(at + 4 <= total);
        let mut quad: Vec<u8> = Vec::new();
        quad.push(self.data[at]);
        quad.push(self.data[at + 1]);
        quad.push(self.data[at + 2]);
        quad.push(self.data[at + 3]);
        proof {
            assert(quad@ =~= self.data@.subrange(at as int, at as int + 4));
        }
        u32_from_le_bytes(quad.as_slice())
    }

    /// Appends one little-endian word.
    fn push_word(&mut self, w: u32)
        requires
            old(self).wf(),
        ensures
            final(self).wf(),
            final(self).all_bytes() == old(self).all_bytes() + spec_u32_to_le_bytes(w),
            final(self).position() == old(self).position(),
    {
        proof {
            lemma_auto_spec_u32_to_from_le_bytes();
        }
        let mut wb = u32_to_le_bytes(w);
        self.data.append(&mut wb);
    }

    /// Appends the encoding of `msg` and reports how many bytes that took.
    pub fn write_header(&mut self, msg: &MsgHeader) -> (n: usize)
        requires
            old(self).wf(),
        ensures
            final(self).wf(),
            final(self).all_bytes() == old(self).all_bytes() + header_wire(*msg),
            final(self).position() == old(self).position(),
            n == header_wire_len(*msg),
    {
        match msg {
            MsgHeader::ReadStateData { offset, len, target } => {
                self.push_word(FS6IPC_READSTATEDATA_ID);
                self.push_word(*offset as u32);
                self.push_word(*len);
                self.push_word(*target);
                proof {
                    assert(self.data@ =~= old(self).all_bytes() + header_wire(*msg));
                }
                16
            },
            MsgHeader::WriteStateData { offset, len } => {
                self.push_word(FS6IPC_WRITESTATEDATA_ID);
                self.push_word(*offset as u32);
                self.push_word(*len);
                proof {
                    assert(self.data@ =~= old(self).all_bytes() + header_wire(*msg));
                }
                12
            },
            MsgHeader::TerminationMark => {
                self.push_word(FS6IPC_TERMINATIONMARK_ID);
                4
            },
        }
    }

    /// Appends `msg`'s body, taken byte for byte from `input`. Fails, with
    /// nothing changed, only when `input` holds fewer bytes than the body
    /// needs.
    pub fn write_body(&mut self, msg: &MsgHeader, input: &mut RawBytes) -> (r: Result<
        usize,
        IpcError,
    >)
        requires
            old(self).wf(),
            old(input).wf(),
        ensures
            final(self).wf(),
            final(input).wf(),
            final(self).position() == old(self).position(),
            old(input).remaining().len() >= body_len(*msg) ==> {
                &&& r matches Ok(c) && c == body_len(*msg)
                &&& final(self).all_bytes() == old(self).all_bytes() + old(
                    input,
                ).remaining().subrange(0, body_len(*msg))
                &&& final(input).all_bytes() == old(input).all_bytes()
                &&& final(input).position() == old(input).position() + body_len(*msg)
            },
            old(input).remaining().len() < body_len(*msg) ==> {
                &&& r matches Err(e) && e is UnexpectedEof
                &&& *final(self) == *old(self)
                &&& *final(input) == *old(input)
            },
    {
        let l: usize = match msg {
            MsgHeader::ReadStateData { len, .. } => *len as usize,
            MsgHeader::WriteStateData { len, .. } => *len as usize,
            MsgHeader::TerminationMark => 0,
        };
        if input.remaining_len() < l {
            return Err(IpcError::UnexpectedEof);
        }
        let mut chunk: Vec<u8> = vec![0u8; l];
        let res = input.read(&mut chunk);
        proof {
            assert(chunk@ =~= old(input).remaining().subrange(0, l as int));
        }
        self.data.append(&mut chunk);
        match res {
            Ok(_) => Ok(l),
            Err(e) => Err(e),
        }
    }

    /// Appends a whole read request: its header, destination reference
    /// `target`, and `len` placeholder zero bytes for the host to overwrite.
    pub fn write_rsd(&mut self, offset: u16, target: u32, len: u32) -> (n: usize)
        requires
            old(self).wf(),
            len + 16 <= usize::MAX,
        ensures
            final(self).wf(),
            final(self).all_bytes() == old(self).all_bytes() + header_wire(
                MsgHeader::ReadStateData { offset, len, target },
            ) + zero_bytes(len as int),
            final(self).position() == old(self).position(),
            n == 16 + len,
    {
        let h = MsgHeader::ReadStateData { offset, len, target };
        let hn = self.write_header(&h);
        let mut zs: Vec<u8> = vec![0u8; len as usize];
        proof {
            assert(zs@ =~= zero_bytes(len as int));
        }
        self.data.append(&mut zs);
        hn + len as usize
    }

    /// Appends a whole write request: its header and the `src` bytes as the
    /// body.
    pub fn write_wsd(&mut self, offset: u16, src: &Vec<u8>) -> (n: usize)
        requires
            old(self).wf(),
            src.len() < 0x1_0000_0000,
            src.len() + 12 <= usize::MAX,
        ensures
            final(self).wf(),
            final(self).all_bytes() == old(self).all_bytes() + header_wire(
                MsgHeader::WriteStateData { offset, len: src.len() as u32 },
            ) + src@,
            final(self).position() == old(self).position(),
            n == 12 + src.len(),
    {
        let h = MsgHeader::WriteStateData { offset, len: src.len() as u32 };
        let hn = self.write_header(&h);
        let mut body: Vec<u8> = Vec::new();
        let count: usize = src.len();
        let mut i: usize = 0;
        #[verifier::loop_isolation(false)]
        while i < count
            invariant
                i <= count,
                body@ =~= src@.subrange(0, i as int),
            decreases count - i,
        {
            body.push(src[i]);
            i = i + 1;
        }
        proof {
            assert(body@ =~= src@);
        }
        self.data.append(&mut body);
        hn + count
    }

    /// Decodes the header at the cursor, advancing past it on success. On
    /// any failure nothing moves: a stream that ends inside the header
    /// reports `UnexpectedEof`, and an unknown tag reports a framing fault
    /// carrying the offending tag word.
    pub fn read_header(&mut self) -> (r: Result<(MsgHeader, usize), IpcError>)
        requires
            old(self).wf(),
        ensures
            final(self).wf(),
            final(self).all_bytes() == old(self).all_bytes(),
            match spec_decode_header(old(self).all_bytes(), old(self).position()) {
                DecodedHeader::Found(h, n) => {
                    &&& r matches Ok(p) && p == (h, n as usize)
                    &&& final(self).position() == old(self).position() + n
                },
                DecodedHeader::TooShort => {
                    &&& r matches Err(e) && e is UnexpectedEof
                    &&& final(self).position() == old(self).position()
                },
                DecodedHeader::BadTag(t) => {
                    &&& r matches Err(e) && e matches IpcError::FramingError(f) && f
                        == FramingFault::UnknownTag(t)
                    &&& final(self).position() == old(self).position()
                },
            },
    {
        let total: usize = self.data.len();
        if total - self.pos < 4 {
            return Err(IpcError::UnexpectedEof);
        }
        let tag = self.word_at_exec(self.pos);
        if tag == FS6IPC_READSTATEDATA_ID {
            if total - self.pos < 16 {
                return Err(IpcError::UnexpectedEof);
            }
            let w_offset = self.word_at_exec(self.pos + 4);
            let w_len = self.word_at_exec(self.pos + 8);
            let w_target = self.word_at_exec(self.pos + 12);
            let h = MsgHeader::ReadStateData {
                offset: (w_offset % 0x10000) as u16,
                len: w_len,
                target: w_target,
            };
            self.pos = self.pos + 16;
            Ok((h, 16))
        } else if tag == FS6IPC_WRITESTATEDATA_ID {
            if total - self.pos < 12 {
                return Err(IpcError::UnexpectedEof);
            }
            let w_offset = self.word_at_exec(self.pos + 4);
            let w_len = self.word_at_exec(self.pos + 8);
            let h = MsgHeader::WriteStateData { offset: (w_offset % 0x10000) as u16, len: w_len };
            self.pos = self.pos + 12;
            Ok((h, 12))
        } else if tag == FS6IPC_TERMINATIONMARK_ID {
            self.pos = self.pos + 4;
            Ok((MsgHeader::TerminationMark, 4))
        } else {
            Err(IpcError::FramingError(FramingFault::UnknownTag(tag)))
        }
    }

    /// Copies `msg`'s body from the cursor into `output`, byte for byte.
    /// Fails, with nothing changed, when the stream ends inside the body
    /// (`UnexpectedEof`) or `output` is too small for it (`WriteZero`).
    #[verifier::loop_isolation(false)]
    pub fn read_body(&mut self, msg: &MsgHeader, output: &mut MutRawBytes) -> (r: Result<
        usize,
        IpcError,
    >)
        requires
            old(self).wf(),
            old(output).wf(),
        ensures
            final(self).wf(),
            final(output).wf(),
            final(self).all_bytes() == old(self).all_bytes(),
            ({
                let l = body_len(*msg);
                let have = old(self).all_bytes().len() - old(self).position();
                &&& have >= l && old(output).space() >= l ==> {
                    &&& r matches Ok(c) && c == l
                    &&& final(self).position() == old(self).position() + l
                    &&& final(output).position() == old(output).position() + l
                    &&& final(output).all_bytes() == old(output).all_bytes().subrange(
                        0,
                        old(output).position(),
                    ) + old(self).all_bytes().subrange(
                        old(self).position(),
                        old(self).position() + l,
                    ) + old(output).all_bytes().subrange(
                        old(output).position() + l,
                        old(output).all_bytes().len() as int,
                    )
                }
                &&& have < l ==> {
                    &&& r matches Err(e) && e is UnexpectedEof
                    &&& *final(self) == *old(self)
                    &&& *final(output) == *old(output)
                }
                &&& have >= l && old(output).space() < l ==> {
                    &&& r matches Err(e) && e is WriteZero
                    &&& *final(self) == *old(self)
                    &&& *final(output) == *old(output)
                }
            }),
    {
        let l: usize = match msg {
            MsgHeader::ReadStateData { len, .. } => *len as usize,
            MsgHeader::WriteStateData { len, .. } => *len as usize,
            MsgHeader::TerminationMark => 0,
        };
        if self.data.len() - self.pos < l {
            return Err(IpcError::UnexpectedEof);
        }
        if output.space_left() < l {
            return Err(IpcError::WriteZero);
        }
        let mut chunk: Vec<u8> = Vec::new();
        let mut i: usize = 0;
        while i < l
            invariant
                i <= l,
                chunk@ =~= self.all_bytes().subrange(self.position(), self.position() + i as int),
            decreases l - i,
        {
            chunk.push(self.data[self.pos + i]);
            i = i + 1;
        }
        self.pos = self.pos + l;
        match output.write(chunk.as_slice()) {
            Ok(n) => Ok(n),
            Err(e) => Err(e),
        }
    }

    /// Skips `msg`'s body without keeping it, as a response scan does for a
    /// write whose echoed body no longer matters. Fails, with nothing
    /// changed, only when the stream ends inside the body.
    pub fn skip_body(&mut self, msg: &MsgHeader) -> (r: Result<usize, IpcError>)
        requires
            old(self).wf(),
        ensures
            final(self).wf(),
            final(self).all_bytes() == old(self).all_bytes(),
            ({
                let l = body_len(*msg);
                let have = old(self).all_bytes().len() - old(self).position();
                &&& have >= l ==> {
                    &&& r matches Ok(c) && c == l
                    &&& final(self).position() == old(self).position() + l
                }
                &&& have < l ==> {
                    &&& r matches Err(e) && e is UnexpectedEof
                    &&& final(self).position() == old(self).position()
                }
            }),
    {
        let l: usize = match msg {
            MsgHeader::ReadStateData { len, .. } => *len as usize,
            MsgHeader::WriteStateData { len, .. } => *len as usize,
            MsgHeader::TerminationMark => 0,
        };
        if self.data.len() - self.pos < l {
            return Err(IpcError::UnexpectedEof);
        }
        self.pos = self.pos + l;
        Ok(l)
    }
}

} // verus!
