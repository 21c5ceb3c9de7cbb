//! The transfer frame: an 8-byte big-endian filename-length prefix, exactly
//! that many filename bytes, then raw file content until the sender closes
//! the connection. There is no checksum or end marker beyond the close.

use vstd::prelude::*;

verus! {

/// The eight big-endian bytes of `n`.
pub open spec fn u64_be_bytes(n: u64) -> Seq<u8> {
    seq![
        ((n >> 56) & 0xFF) as u8,
        ((n >> 48) & 0xFF) as u8,
        ((n >> 40) & 0xFF) as u8,
        ((n >> 32) & 0xFF) as u8,
        ((n >> 24) & 0xFF) as u8,
        ((n >> 16) & 0xFF) as u8,
        ((n >> 8) & 0xFF) as u8,
        (n & 0xFF) as u8,
    ]
}

/// The value of eight bytes read as one big-endian integer.
pub open spec fn be_u64(s: Seq<u8>) -> u64
    recommends
        s.len() == 8,
{
    ((s[0] as u64) << 56) | ((s[1] as u64) << 48) | ((s[2] as u64) << 40)
        | ((s[3] as u64) << 32) | ((s[4] as u64) << 24) | ((s[5] as u64) << 16)
        | ((s[6] as u64) << 8) | (s[7] as u64)
}

/// Reading back the eight bytes of `n` yields `n`.
pub proof fn lemma_be_u64_round_trip(n: u64)
    ensures
        be_u64(u64_be_bytes(n)) == n,
{
    assert(((((n >> 56) & 0xFF) as u8) as u64) << 56
        | ((((n >> 48) & 0xFF) as u8) as u64) << 48
        | ((((n >> 40) & 0xFF) as u8) as u64) << 40
        | ((((n >> 32) & 0xFF) as u8) as u64) << 32
        | ((((n >> 24) & 0xFF) as u8) as u64) << 24
        | ((((n >> 16) & 0xFF) as u8) as u64) << 16
        | ((((n >> 8) & 0xFF) as u8) as u64) << 8
        | (((n & 0xFF) as u8) as u64) == n) by (bit_vector);
}

/// Write `n` as eight big-endian bytes.
pub fn u64_to_be_bytes(n: u64) -> (r: Vec<u8>)
    ensures
        r@ == u64_be_bytes(n),
{
    let mut r: Vec<u8> = Vec::new();
    r.push(((n >> 56) & 0xFF) as u8);
    r.push(((n >> 48) & 0xFF) as u8);
    r.push(((n >> 40) & 0xFF) as u8);
    r.push(((n >> 32) & 0xFF) as u8);
    r.push(((n >> 24) & 0xFF) as u8);
    r.push(((n >> 16) & 0xFF) as u8);
    r.push(((n >> 8) & 0xFF) as u8);
    r.push((n & 0xFF) as u8);
    proof {
        assert(r@ =~= u64_be_bytes(n));
    }
    r
}

/// Read eight bytes as one big-endian integer.
pub fn u64_from_be_bytes(b: &[u8]) -> (r: u64)
    requires
        b@.len() == 8,
    ensures
        r == be_u64(b@),
{
    ((b[0] as u64) << 56) | ((b[1] as u64) << 48) | ((b[2] as u64) << 40)
        | ((b[3] as u64) << 32) | ((b[4] as u64) << 24) | ((b[5] as u64) << 16)
        | ((b[6] as u64) << 8) | (b[7] as u64)
}

/// The filename length named by a stream's first eight bytes.
pub open spec fn frame_name_len(s: Seq<u8>) -> u64
    recommends
        s.len() >= 8,
{
    be_u64(s.take(8))
}

/// Whether `s` holds a complete frame header: the whole length field and the
/// whole filename.
pub open spec fn frame_header_complete(s: Seq<u8>) -> bool {
    s.len() >= 8 && s.len() >= 8 + frame_name_len(s)
}

/// The filename bytes of a stream whose header is complete.
pub open spec fn frame_name(s: Seq<u8>) -> Seq<u8>
    recommends
        frame_header_complete(s),
{
    s.subrange(8, 8 + frame_name_len(s) as int)
}

/// The file content of a stream whose header is complete: everything after
/// the filename.
pub open spec fn frame_content(s: Seq<u8>) -> Seq<u8>
    recommends
        frame_header_complete(s),
{
    s.skip(8 + frame_name_len(s) as int)
}

/// The bytes a sender puts on the wire ahead of the file content.
pub open spec fn frame_header(name: Seq<u8>) -> Seq<u8>
    recommends
        name.len() <= u64::MAX,
{
    u64_be_bytes(name.len() as u64) + name
}

/// Build the header for `name`: its length as eight big-endian bytes, then
/// `name` itself.
pub fn encode_frame_header(name: &[u8]) -> (r: Vec<u8>)
    ensures
        r@ == frame_header(name@),
{
    let mut r = u64_to_be_bytes(name.len() as u64);
    let mut i: usize = 0;
    while i < name.len()
        invariant
            i <= name@.len(),
            r@ == u64_be_bytes(name@.len() as u64) + name@.take(i as int),
        decreases name@.len() - i,
    {
        r.push(name[i]);
        proof {
            assert(name@.take(i + 1) =~= name@.take(i as int).push(name@[i as int]));
        }
        i += 1;
    }
    proof {
        assert(name@.take(name@.len() as int) =~= name@);
    }
    r
}

/// Sender/receiver agreement: a stream that starts with the header for `name`
/// carries exactly `name` as its filename, and everything after the header as
/// its content.
pub proof fn lemma_frame_round_trip(name: Seq<u8>, content: Seq<u8>)
    requires
        name.len() <= u64::MAX,
    ensures
        frame_header_complete(frame_header(name) + content),
        frame_name(frame_header(name) + content) == name,
        frame_content(frame_header(name) + content) == content,
{
    let s = frame_header(name) + content;
    assert(s.take(8) =~= u64_be_bytes(name.len() as u64));
    lemma_be_u64_round_trip(name.len() as u64);
    assert(frame_name(s) =~= name);
    assert(frame_content(s) =~= content);
}

/// Once exactly a complete header `h` has been consumed, whatever else the
/// connection carries is exactly the frame's content, however it arrives.
pub proof fn lemma_content_after_header(h: Seq<u8>, rest: Seq<u8>)
    requires
        frame_header_complete(h),
        h.len() == 8 + frame_name_len(h),
    ensures
        frame_header_complete(h + rest),
        frame_name(h + rest) == frame_name(h),
        frame_content(h + rest) == rest,
{
    assert((h + rest).take(8) =~= h.take(8));
    assert(frame_name(h + rest) =~= frame_name(h));
    assert(frame_content(h + rest) =~= rest);
}

/// Where a connection's frame reader stands. Each inbound connection walks
/// these phases in order; a short read in either of the first two aborts the
/// connection from outside, and content flows only in the last.
#[derive(PartialEq, Eq, Structural, Debug, Clone, Copy)]
pub enum RecvPhase {
    /// Reading the eight-byte filename length.
    AwaitLength,
    /// Reading the filename bytes.
    AwaitFilename,
    /// The header is complete; everything further is file content.
    Streaming,
}

/// Incremental reader for the frame header on the receiving side. It is fed
/// the bytes that arrive on a connection and consumes exactly the header (the
/// length field and the filename); the bytes after it are file content and
/// never enter the reader.
pub struct FrameReader {
    len_buf: Vec<u8>,
    name_len: u64,
    name_buf: Vec<u8>,
    consumed: Ghost<Seq<u8>>,
}

impl FrameReader {
    /// All bytes the reader has consumed from the connection so far.
    pub closed spec fn consumed(self) -> Seq<u8> {
        self.consumed@
    }

    /// The reader's internal buffers agree with the consumed stream.
    pub closed spec fn wf(self) -> bool {
        &&& self.consumed@ == self.len_buf@ + self.name_buf@
        &&& self.len_buf@.len() <= 8
        &&& (self.len_buf@.len() < 8 ==> self.name_buf@.len() == 0)
        &&& (self.len_buf@.len() == 8 ==> self.name_len == be_u64(self.len_buf@)
            && self.name_buf@.len() <= self.name_len)
    }

    /// Whether the whole header has arrived.
    pub closed spec fn done(self) -> bool {
        self.len_buf@.len() == 8 && self.name_buf@.len() == self.name_len
    }

    /// A well-formed reader is done exactly when what it consumed is a
    /// complete header.
    pub proof fn lemma_done_iff_complete(self)
        requires
            self.wf(),
        ensures
            self.done() <==> frame_header_complete(self.consumed()),
            self.done() ==> self.consumed().len() == 8 + frame_name_len(self.consumed()),
    {
        if self.len_buf@.len() == 8 {
            assert(self.consumed@.take(8) =~= self.len_buf@);
        }
    }

    /// A reader that has consumed nothing.
    pub fn new() -> (r: FrameReader)
        ensures
            r.wf(),
            r.consumed() == Seq::<u8>::empty(),
            !r.done(),
    {
        let r = FrameReader {
            len_buf: Vec::new(),
            name_len: 0,
            name_buf: Vec::new(),
            consumed: Ghost(Seq::empty()),
        };
        proof {
            assert(r.consumed@ =~= r.len_buf@ + r.name_buf@);
        }
        r
    }

    /// Where the reader stands: still reading the length field, still reading
    /// the filename, or past the header.
    pub closed spec fn spec_phase(self) -> RecvPhase {
        if self.len_buf@.len() < 8 {
            RecvPhase::AwaitLength
        } else if self.name_buf@.len() < self.name_len {
            RecvPhase::AwaitFilename
        } else {
            RecvPhase::Streaming
        }
    }

    /// Where the reader stands in the per-connection state machine.
    pub fn phase(&self) -> (r: RecvPhase)
        requires
            self.wf(),
        ensures
            r == self.spec_phase(),
            r == RecvPhase::Streaming <==> self.done(),
    {
        if self.len_buf.len() < 8 {
            RecvPhase::AwaitLength
        } else if (self.name_buf.len() as u64) < self.name_len {
            RecvPhase::AwaitFilename
        } else {
            RecvPhase::Streaming
        }
    }

    /// Whether the whole header has arrived.
    pub fn is_done(&self) -> (r: bool)
        requires
            self.wf(),
        ensures
            r == self.done(),
    {
        self.len_buf.len() == 8 && (self.name_buf.len() as u64) == self.name_len
    }

    /// Consume one byte of the connection's stream.
    fn push_byte(&mut self, b: u8)
        requires
            old(self).wf(),
            !old(self).done(),
        ensures
            final(self).wf(),
            final(self).consumed() == old(self).consumed().push(b),
    {
        if self.len_buf.len() < 8 {
            self.len_buf.push(b);
            if self.len_buf.len() == 8 {
                self.name_len = u64_from_be_bytes(self.len_buf.as_slice());
            }
        } else {
            self.name_buf.push(b);
        }
        self.consumed = Ghost(self.consumed@.push(b));
        proof {
            assert(self.consumed@ =~= self.len_buf@ + self.name_buf@);
        }
    }

    /// Feed bytes that arrived on the connection. Returns `Some(used)` when
    /// the header became complete after consuming `used` bytes of `chunk`
    /// (the rest of the chunk is file content), and `None` when the whole
    /// chunk was consumed and the header is still incomplete.
    pub fn push(&mut self, chunk: &[u8]) -> (r: Option<usize>)
        requires
            old(self).wf(),
            !old(self).done(),
        ensures
            final(self).wf(),
            match r {
                Some(used) => {
                    &&& used <= chunk@.len()
                    &&& final(self).consumed() == old(self).consumed() + chunk@.take(used as int)
                    &&& final(self).done()
                    &&& frame_header_complete(final(self).consumed())
                    &&& final(self).consumed().len() == 8 + frame_name_len(final(self).consumed())
                },
                None => {
                    &&& final(self).consumed() == old(self).consumed() + chunk@
                    &&& !final(self).done()
                    &&& !frame_header_complete(final(self).consumed())
                },
            },
    {
        let mut i: usize = 0;
        while i < chunk.len()
            invariant
                i <= chunk@.len(),
                self.wf(),
                !self.done(),
                self.consumed() == old(self).consumed() + chunk@.take(i as int),
            decreases chunk@.len() - i,
        {
            self.push_byte(chunk[i]);
            proof {
                assert(chunk@.take(i + 1) =~= chunk@.take(i as int).push(chunk@[i as int]));
            }
            i += 1;
            if self.is_done() {
                proof {
                    self.lemma_done_iff_complete();
                }
                return Some(i);
            }
        }
        proof {
            assert(chunk@.take(chunk@.len() as int) =~= chunk@);
            self.lemma_done_iff_complete();
        }
        None
    }

    /// The received filename bytes, once the header is complete.
    pub fn name(&self) -> (r: &Vec<u8>)
        requires
            self.wf(),
            self.done(),
        ensures
            r@ == frame_name(self.consumed()),
    {
        proof {
            assert(self.consumed@.take(8) =~= self.len_buf@);
            assert(self.consumed@.subrange(8, 8 + self.name_len as int) =~= self.name_buf@);
        }
        &self.name_buf
    }
}

} // verus!
