//! The bookkeeping of one request/response exchange over a byte stream. The
//! caller performs each write and read and reports what happened; these
//! types decide what to send next and when the exchange is over.
use vstd::prelude::*;
use vstd::slice::{slice_subrange, slice_to_vec};
use vstd::utf8::{decode_utf8, encode_utf8, valid_utf8};

verus! {

/// What one write of the pending bytes leads to.
#[derive(Debug, Clone, Copy, PartialEq, Eq)]
pub enum WriteStep {
    /// Bytes remain to be written.
    More,
    /// The whole request has been written.
    Done,
    /// The transport took nothing while bytes remained: the write failed.
    Stalled,
}

/// A request on its way out: its bytes, and how many of them the transport
/// has taken so far.
pub struct OutgoingRequest {
    bytes: Vec<u8>,
    sent: usize,
}

/// What an `OutgoingRequest` holds.
pub struct OutgoingView {
    pub bytes: Seq<u8>,
    pub sent: nat,
}

impl View for OutgoingRequest {
    type V = OutgoingView;

    closed spec fn view(&self) -> OutgoingView {
        OutgoingView { bytes: self.bytes@, sent: self.sent as nat }
    }
}

impl OutgoingRequest {
    /// No more bytes are counted as sent than the request has.
    pub open spec fn wf(&self) -> bool {
        self@.sent <= self@.bytes.len()
    }

    /// A request of the text `text`, in UTF-8, of which nothing is sent yet.
    pub fn new(text: &str) -> (r: OutgoingRequest)
        ensures
            r.wf(),
            r@.bytes == encode_utf8(text@),
            r@.sent == 0,
    {
        OutgoingRequest { bytes: slice_to_vec(text.as_bytes()), sent: 0 }
    }

    /// The bytes not yet taken by the transport, to be offered to the next write.
    pub fn pending(&self) -> (r: &[u8])
        requires
            self.wf(),
        ensures
            r@ == self@.bytes.subrange(self@.sent as int, self@.bytes.len() as int),
    {
        slice_subrange(self.bytes.as_slice(), self.sent, self.bytes.len())
    }

    /// Whether the transport has taken the whole request.
    pub fn is_complete(&self) -> (r: bool)
        requires
            self.wf(),
        ensures
            r == (self@.sent == self@.bytes.len()),
    {
        self.sent == self.bytes.len()
    }

    /// Records that the transport took the first `n` of the pending bytes.
    pub fn record_write(&mut self, n: usize) -> (r: WriteStep)
        requires
            old(self).wf(),
            n <= old(self)@.bytes.len() - old(self)@.sent,
        ensures
            final(self).wf(),
            final(self)@.bytes == old(self)@.bytes,
            final(self)@.sent == old(self)@.sent + n,
            r == (if n == 0 && old(self)@.sent < old(self)@.bytes.len() {
                WriteStep::Stalled
            } else if final(self)@.sent == final(self)@.bytes.len() {
                WriteStep::Done
            } else {
                WriteStep::More
            }),
    {
        let stalled = n == 0 && self.sent < self.bytes.len();
        let len = self.bytes.len();
        assert(self.sent + n <= len);
        self.sent = self.sent + n;
        if stalled {
            WriteStep::Stalled
        } else if self.sent == self.bytes.len() {
            WriteStep::Done
        } else {
            WriteStep::More
        }
    }
}

/// What reaches the peer from `bytes`, from `start` on, when successive
/// writes take `counts[0]`, `counts[1]`, ... of the pending bytes.
pub open spec fn delivered(bytes: Seq<u8>, start: int, counts: Seq<int>) -> Seq<u8>
    decreases counts.len(),
{
    if counts.len() == 0 {
        Seq::empty()
    } else {
        bytes.subrange(start, start + counts[0]) + delivered(
            bytes,
            start + counts[0],
            counts.drop_first(),
        )
    }
}

/// The sum of `counts`.
pub open spec fn total(counts: Seq<int>) -> int
    decreases counts.len(),
{
    if counts.len() == 0 {
        0
    } else {
        counts[0] + total(counts.drop_first())
    }
}

proof fn lemma_delivered_from(bytes: Seq<u8>, start: int, counts: Seq<int>)
    requires
        0 <= start,
        forall|i: int| 0 <= i < counts.len() ==> counts[i] >= 1,
        start + total(counts) <= bytes.len(),
    ensures
        delivered(bytes, start, counts) == bytes.subrange(start, start + total(counts)),
        counts.len() <= total(counts),
    decreases counts.len(),
{
    if counts.len() > 0 {
        let rest = counts.drop_first();
        assert forall|i: int| 0 <= i < rest.len() implies rest[i] >= 1 by {
            assert(rest[i] == counts[i + 1]);
        }
        lemma_delivered_from(bytes, start + counts[0], rest);
        assert(bytes.subrange(start, start + counts[0]) + bytes.subrange(
            start + counts[0],
            start + counts[0] + total(rest),
        ) =~= bytes.subrange(start, start + total(counts)));
    }
}

/// Short writes lose nothing: however the transport splits the request, the
/// peer receives the request's bytes in order, as many as the writes took;
/// and as each write takes at least one byte, no more writes than the request
/// has bytes pass before all of it is through.
pub proof fn law_short_writes(bytes: Seq<u8>, counts: Seq<int>)
    requires
        forall|i: int| 0 <= i < counts.len() ==> counts[i] >= 1,
        total(counts) <= bytes.len(),
    ensures
        delivered(bytes, 0, counts) == bytes.subrange(0, total(counts)),
        total(counts) == bytes.len() ==> delivered(bytes, 0, counts) == bytes,
        counts.len() <= total(counts),
{
    lemma_delivered_from(bytes, 0, counts);
    assert(bytes.subrange(0, bytes.len() as int) =~= bytes);
}

/// A name for the text that `String::from_utf8_lossy` makes of bytes: each
/// invalid sequence replaced by U+FFFD.
pub uninterp spec fn lossy_text(b: Seq<u8>) -> Seq<char>;

/// Relies on `String::from_utf8_lossy`: the text of the bytes, with each
/// invalid sequence replaced, and the bytes' own text where they are valid UTF-8.
#[verifier::external_body]
fn decode_lossy(b: &[u8]) -> (r: String)
    ensures
        r@ == lossy_text(b@),
        valid_utf8(b@) ==> r@ == decode_utf8(b@),
{
    String::from_utf8_lossy(b).into_owned()
}

/// A response being read until the peer closes: the bytes so far, and
/// whether the end has been seen.
pub struct ResponseBuffer {
    bytes: Vec<u8>,
    closed: bool,
}

/// What a `ResponseBuffer` holds.
pub struct ResponseView {
    pub bytes: Seq<u8>,
    pub closed: bool,
}

impl View for ResponseBuffer {
    type V = ResponseView;

    closed spec fn view(&self) -> ResponseView {
        ResponseView { bytes: self.bytes@, closed: self.closed }
    }
}

impl ResponseBuffer {
    /// An empty response, still open.
    pub fn new() -> (r: ResponseBuffer)
        ensures
            r@.bytes == Seq::<u8>::empty(),
            !r@.closed,
    {
        ResponseBuffer { bytes: Vec::new(), closed: false }
    }

    /// Records what one read returned. An empty read means that the peer
    /// closed the connection; the result tells whether that has happened.
    pub fn record_read(&mut self, chunk: &[u8]) -> (r: bool)
        requires
            !old(self)@.closed,
        ensures
            r == final(self)@.closed,
            r == (chunk@.len() == 0),
            final(self)@.bytes == old(self)@.bytes + chunk@,
    {
        if chunk.len() == 0 {
            self.closed = true;
            assert(self.bytes@ =~= self.bytes@ + chunk@);
        } else {
            let mut i: usize = 0;
            let ghost before = self.bytes@;
            while i < chunk.len()
                invariant
                    i <= chunk@.len(),
                    !self.closed,
                    self.bytes@ == before + chunk@.subrange(0, i as int),
                decreases chunk@.len() - i,
            {
                self.bytes.push(chunk[i]);
                assert(self.bytes@ =~= before + chunk@.subrange(0, i + 1));
                i = i + 1;
            }
            assert(chunk@.subrange(0, chunk@.len() as int) =~= chunk@);
        }
        self.closed
    }

    /// Whether the peer has closed the connection.
    pub fn is_closed(&self) -> (r: bool)
        ensures
            r == self@.closed,
    {
        self.closed
    }

    /// The bytes received so far.
    pub fn bytes(&self) -> (r: &[u8])
        ensures
            r@ == self@.bytes,
    {
        self.bytes.as_slice()
    }

    /// The response as text, each invalid UTF-8 sequence replaced.
    pub fn text(&self) -> (r: String)
        ensures
            r@ == lossy_text(self@.bytes),
            valid_utf8(self@.bytes) ==> r@ == decode_utf8(self@.bytes),
    {
        decode_lossy(self.bytes.as_slice())
    }
}

/// The concatenation of `chunks`, in order.
pub open spec fn joined(chunks: Seq<Seq<u8>>) -> Seq<u8>
    decreases chunks.len(),
{
    if chunks.len() == 0 {
        Seq::empty()
    } else {
        chunks[0] + joined(chunks.drop_first())
    }
}

/// The bytes of a response buffer holding `b` after reads of `chunks`, one at a time.
pub open spec fn after_reads(b: Seq<u8>, chunks: Seq<Seq<u8>>) -> Seq<u8>
    decreases chunks.len(),
{
    if chunks.len() == 0 {
        b
    } else {
        after_reads(b + chunks[0], chunks.drop_first())
    }
}

proof fn lemma_after_reads(b: Seq<u8>, chunks: Seq<Seq<u8>>)
    ensures
        after_reads(b, chunks) == b + joined(chunks),
    decreases chunks.len(),
{
    if chunks.len() == 0 {
        assert(b + Seq::<u8>::empty() =~= b);
    } else {
        lemma_after_reads(b + chunks[0], chunks.drop_first());
        assert(b + chunks[0] + joined(chunks.drop_first()) =~= b + joined(chunks));
    }
}

/// Reading to the close keeps the reply whole: however the peer's bytes are
/// split into reads, an empty buffer ends up holding exactly those bytes.
pub proof fn law_read_to_close(chunks: Seq<Seq<u8>>)
    ensures
        after_reads(Seq::empty(), chunks) == joined(chunks),
{
    lemma_after_reads(Seq::empty(), chunks);
    assert(Seq::<u8>::empty() + joined(chunks) =~= joined(chunks));
}

} // verus!
