//! Framing for the daemon socket. A Unix socket is a byte stream with no
//! message boundaries, so every message carries its own length: a kind byte,
//! the payload's length in four big-endian bytes, then the payload. The kind
//! splits control messages from terminal output, which is raw bytes and never
//! goes through JSON.

use crate::text::{decimal, decimal_text, decimal_usize};
use vstd::prelude::*;

verus! {

/// Largest payload one frame may carry. The reader allocates whatever length
/// a frame announces, so this is the ceiling on what one message can make the
/// process allocate.
pub const MAX_FRAME_BYTES: usize = 4 * 1024 * 1024;

/// How many bytes stand before the payload.
pub const HEADER_BYTES: usize = 5;

/// What a frame carries.
#[derive(Debug, Clone, Copy, PartialEq, Eq, Structural)]
pub enum FrameKind {
    /// A JSON control message.
    Control,
    /// Raw PTY bytes, untouched in either direction.
    Terminal,
}

/// The byte that stands for `kind` on the wire.
pub open spec fn kind_byte(kind: FrameKind) -> u8 {
    match kind {
        FrameKind::Control => 1,
        FrameKind::Terminal => 2,
    }
}

/// The kind that a byte on the wire stands for.
pub open spec fn kind_of_byte(byte: u8) -> Option<FrameKind> {
    if byte == 1 {
        Some(FrameKind::Control)
    } else if byte == 2 {
        Some(FrameKind::Terminal)
    } else {
        None
    }
}

impl FrameKind {
    pub fn to_byte(self) -> (r: u8)
        ensures
            r == kind_byte(self),
    {
        match self {
            FrameKind::Control => 1,
            FrameKind::Terminal => 2,
        }
    }

    pub fn from_byte(byte: u8) -> (r: Result<FrameKind, FrameError>)
        ensures
            match kind_of_byte(byte) {
                Some(kind) => r == Ok::<FrameKind, FrameError>(kind),
                None => r == Err::<FrameKind, FrameError>(FrameError::UnknownKind(byte)),
            },
    {
        match byte {
            1 => Ok(FrameKind::Control),
            2 => Ok(FrameKind::Terminal),
            other => Err(FrameError::UnknownKind(other)),
        }
    }
}

/// Why a frame could not be written or read.
#[derive(Debug, Clone, Copy, PartialEq, Eq, Structural)]
pub enum FrameError {
    /// The first byte stands for no kind.
    UnknownKind(u8),
    /// The payload handed to the writer is over the limit.
    PayloadTooLarge(usize),
    /// The header announces more than the limit.
    AnnouncedTooLarge(usize),
    /// The stream ended with the header complete and no byte of the body.
    EndedBeforeBody(usize),
    /// The stream ended after `filled` of `wanted` bytes of a header or a body.
    EndedInside { filled: usize, wanted: usize },
}

/// What `error` says to a person.
pub open spec fn frame_error_text(error: FrameError) -> Seq<char> {
    match error {
        FrameError::UnknownKind(byte) => "unknown frame kind "@ + decimal_text(byte as nat),
        FrameError::PayloadTooLarge(len) => "frame payload of "@ + decimal_text(len as nat)
            + " bytes exceeds the "@ + decimal_text(MAX_FRAME_BYTES as nat) + "-byte limit"@,
        FrameError::AnnouncedTooLarge(len) => "frame announces "@ + decimal_text(len as nat)
            + " bytes, over the "@ + decimal_text(MAX_FRAME_BYTES as nat) + "-byte limit"@,
        FrameError::EndedBeforeBody(len) => "stream ended inside a frame body of "@
            + decimal_text(len as nat) + " bytes"@,
        FrameError::EndedInside { filled, wanted } => "stream ended after "@
            + decimal_text(filled as nat) + " of "@ + decimal_text(wanted as nat) + " bytes"@,
    }
}

impl FrameError {
    pub fn message(&self) -> (r: String)
        ensures
            r@ == frame_error_text(*self),
    {
        match self {
            FrameError::UnknownKind(byte) => "unknown frame kind ".to_owned().concat(
                decimal(*byte as u64).as_str(),
            ),
            FrameError::PayloadTooLarge(len) => "frame payload of ".to_owned().concat(
                decimal_usize(*len).as_str(),
            ).concat(" bytes exceeds the ").concat(decimal_usize(MAX_FRAME_BYTES).as_str()).concat(
                "-byte limit",
            ),
            FrameError::AnnouncedTooLarge(len) => "frame announces ".to_owned().concat(
                decimal_usize(*len).as_str(),
            ).concat(" bytes, over the ").concat(decimal_usize(MAX_FRAME_BYTES).as_str()).concat(
                "-byte limit",
            ),
            FrameError::EndedBeforeBody(len) => "stream ended inside a frame body of ".to_owned().concat(
                decimal_usize(*len).as_str(),
            ).concat(" bytes"),
            FrameError::EndedInside { filled, wanted } => "stream ended after ".to_owned().concat(
                decimal_usize(*filled).as_str(),
            ).concat(" of ").concat(decimal_usize(*wanted).as_str()).concat(" bytes"),
        }
    }
}

/// One framed message.
#[derive(Debug, Clone, PartialEq, Eq)]
pub struct Frame {
    pub kind: FrameKind,
    pub payload: Vec<u8>,
}

/// What a frame carries, as a value.
pub struct FrameView {
    pub kind: FrameKind,
    pub payload: Seq<u8>,
}

impl View for Frame {
    type V = FrameView;

    open spec fn view(&self) -> FrameView {
        FrameView { kind: self.kind, payload: self.payload@ }
    }
}

impl Frame {
    pub fn control(payload: Vec<u8>) -> (r: Frame)
        ensures
            r@ == (FrameView { kind: FrameKind::Control, payload: payload@ }),
    {
        Frame { kind: FrameKind::Control, payload }
    }

    pub fn terminal(payload: Vec<u8>) -> (r: Frame)
        ensures
            r@ == (FrameView { kind: FrameKind::Terminal, payload: payload@ }),
    {
        Frame { kind: FrameKind::Terminal, payload }
    }

    /// A second frame with the same contents.
    pub fn duplicate(&self) -> (r: Frame)
        ensures
            r@ == self@,
    {
        let payload = vstd::slice::slice_to_vec(self.payload.as_slice());
        Frame { kind: self.kind, payload }
    }

    /// Whether two frames carry the same thing.
    pub fn same(&self, other: &Frame) -> (r: bool)
        ensures
            r == (self@ == other@),
    {
        if self.kind != other.kind || self.payload.len() != other.payload.len() {
            return false;
        }
        let mut i: usize = 0;
        while i < self.payload.len()
            invariant
                i <= self.payload.len(),
                self.payload.len() == other.payload.len(),
                forall|k: int| 0 <= k < i ==> self.payload@[k] == other.payload@[k],
            decreases self.payload.len() - i,
        {
            if self.payload[i] != other.payload[i] {
                return false;
            }
            i += 1;
        }
        proof {
            assert(self.payload@ =~= other.payload@);
        }
        true
    }
}

/// `n` in four bytes, most significant first.
pub open spec fn big_endian(n: nat) -> Seq<u8> {
    seq![
        (n / 16777216 % 256) as u8,
        (n / 65536 % 256) as u8,
        (n / 256 % 256) as u8,
        (n % 256) as u8,
    ]
}

/// The number that four bytes stand for, most significant first.
pub open spec fn from_big_endian(b: Seq<u8>) -> nat {
    (b[0] * 16777216 + b[1] * 65536 + b[2] * 256 + b[3]) as nat
}

/// The bytes of one frame on the wire.
pub open spec fn frame_bytes(frame: FrameView) -> Seq<u8> {
    seq![kind_byte(frame.kind)] + big_endian(frame.payload.len()) + frame.payload
}

/// The bytes of several frames, one after another.
pub open spec fn stream_bytes(frames: Seq<FrameView>) -> Seq<u8>
    decreases frames.len(),
{
    if frames.len() == 0 {
        Seq::empty()
    } else {
        frame_bytes(frames[0]) + stream_bytes(frames.skip(1))
    }
}

/// The length that the header at the start of `bytes` announces.
pub open spec fn announced(bytes: Seq<u8>) -> nat {
    from_big_endian(bytes.subrange(1, 5))
}

/// What a reader finds at the start of `bytes` when the stream ends after them.
pub open spec fn frame_at_start(bytes: Seq<u8>) -> Result<Option<FrameView>, FrameError> {
    if bytes.len() == 0 {
        Ok(None)
    } else if bytes.len() < HEADER_BYTES {
        Err(FrameError::EndedInside { filled: bytes.len() as usize, wanted: HEADER_BYTES })
    } else if kind_of_byte(bytes[0]) is None {
        Err(FrameError::UnknownKind(bytes[0]))
    } else if announced(bytes) > MAX_FRAME_BYTES {
        Err(FrameError::AnnouncedTooLarge(announced(bytes) as usize))
    } else if bytes.len() >= HEADER_BYTES + announced(bytes) {
        Ok(
            Some(
                FrameView {
                    kind: kind_of_byte(bytes[0])->0,
                    payload: bytes.subrange(
                        HEADER_BYTES as int,
                        HEADER_BYTES + announced(bytes),
                    ),
                },
            ),
        )
    } else if bytes.len() == HEADER_BYTES {
        Err(FrameError::EndedBeforeBody(announced(bytes) as usize))
    } else {
        Err(
            FrameError::EndedInside {
                filled: (bytes.len() - HEADER_BYTES) as usize,
                wanted: announced(bytes) as usize,
            },
        )
    }
}

/// A frame as a plain value, for comparing what was read.
pub open spec fn read_view(r: Result<Option<Frame>, FrameError>) -> Result<
    Option<FrameView>,
    FrameError,
> {
    match r {
        Ok(Some(frame)) => Ok(Some(frame@)),
        Ok(None) => Ok(None),
        Err(error) => Err(error),
    }
}

/// Append `bytes` to `out`.
fn append_bytes(out: &mut Vec<u8>, bytes: &[u8])
    ensures
        final(out)@ == old(out)@ + bytes@,
{
    out.extend_from_slice(bytes);
    proof {
        assert(out@ =~= old(out)@ + bytes@);
    }
}

/// Write one frame at the end of `writer`: kind byte, big-endian length, payload.
///
/// A payload over the limit is refused and nothing is written.
pub fn write_frame(writer: &mut Vec<u8>, frame: &Frame) -> (r: Result<(), FrameError>)
    ensures
        frame@.payload.len() <= MAX_FRAME_BYTES ==> r is Ok && final(writer)@ == old(writer)@
            + frame_bytes(frame@),
        frame@.payload.len() > MAX_FRAME_BYTES ==> final(writer)@ == old(writer)@ && r == Err::<
            (),
            FrameError,
        >(FrameError::PayloadTooLarge(frame.payload.len())),
{
    let len: usize = frame.payload.len();
    if len > MAX_FRAME_BYTES {
        return Err(FrameError::PayloadTooLarge(len));
    }
    writer.push(frame.kind.to_byte());
    writer.push((len / 16777216 % 256) as u8);
    writer.push((len / 65536 % 256) as u8);
    writer.push((len / 256 % 256) as u8);
    writer.push((len % 256) as u8);
    append_bytes(writer, frame.payload.as_slice());
    proof {
        assert(writer@ =~= old(writer)@ + frame_bytes(frame@));
    }
    Ok(())
}

/// Bytes that arrive in order and then end: what a closed stream still holds.
pub struct ByteStream {
    pub bytes: Vec<u8>,
    pub at: usize,
}

impl ByteStream {
    pub open spec fn wf(&self) -> bool {
        self.at <= self.bytes@.len()
    }

    /// The bytes that have not been read.
    pub open spec fn rest(&self) -> Seq<u8> {
        self.bytes@.skip(self.at as int)
    }

    pub fn new(bytes: Vec<u8>) -> (r: ByteStream)
        ensures
            r.wf(),
            r.rest() == bytes@,
    {
        let r = ByteStream { bytes, at: 0 };
        proof {
            assert(r.rest() =~= bytes@);
        }
        r
    }

    /// Take at most `limit` bytes; fewer only where the stream ends.
    pub fn read(&mut self, limit: usize) -> (r: Vec<u8>)
        requires
            old(self).wf(),
        ensures
            final(self).wf(),
            r@.len() == if limit <= old(self).rest().len() {
                limit as nat
            } else {
                old(self).rest().len()
            },
            r@ == old(self).rest().take(r@.len() as int),
            final(self).rest() == old(self).rest().skip(r@.len() as int),
    {
        let left: usize = self.bytes.len() - self.at;
        let n: usize = if limit <= left {
            limit
        } else {
            left
        };
        let chunk = vstd::slice::slice_to_vec(
            vstd::slice::slice_subrange(self.bytes.as_slice(), self.at, self.at + n),
        );
        self.at = self.at + n;
        proof {
            assert(chunk@ =~= old(self).rest().take(n as int));
            assert(self.rest() =~= old(self).rest().skip(n as int));
        }
        chunk
    }
}

/// Whether `bytes` is the beginning of a frame that more bytes can complete.
pub open spec fn unfinished(bytes: Seq<u8>) -> bool {
    bytes.len() < HEADER_BYTES || {
        &&& kind_of_byte(bytes[0]) is Some
        &&& announced(bytes) <= MAX_FRAME_BYTES
        &&& bytes.len() < HEADER_BYTES + announced(bytes)
    }
}

/// Reads frames out of chunks of whatever size the transport hands over. It
/// keeps the bytes of the frame that is on its way.
pub struct FrameReader {
    pub received: Vec<u8>,
}

impl FrameReader {
    pub open spec fn wf(&self) -> bool {
        unfinished(self.received@)
    }

    /// How many bytes are missing until the header or the body is complete.
    pub open spec fn missing(&self) -> nat {
        if self.received@.len() < HEADER_BYTES {
            (HEADER_BYTES - self.received@.len()) as nat
        } else {
            (HEADER_BYTES + announced(self.received@) - self.received@.len()) as nat
        }
    }

    pub fn new() -> (r: FrameReader)
        ensures
            r.wf(),
            r.received@ == Seq::<u8>::empty(),
    {
        FrameReader { received: Vec::new() }
    }

    fn announced_len(bytes: &Vec<u8>) -> (r: usize)
        requires
            bytes@.len() >= HEADER_BYTES,
        ensures
            r == announced(bytes@),
    {
        proof {
            let h = bytes@.subrange(1, 5);
            assert(h[0] == bytes@[1] && h[1] == bytes@[2] && h[2] == bytes@[3] && h[3]
                == bytes@[4]);
        }
        bytes[1] as usize * 16777216 + bytes[2] as usize * 65536 + bytes[3] as usize * 256
            + bytes[4] as usize
    }

    /// How many bytes to read next, at most.
    pub fn wanted(&self) -> (r: usize)
        requires
            self.wf(),
        ensures
            r == self.missing(),
            r > 0,
    {
        if self.received.len() < HEADER_BYTES {
            HEADER_BYTES - self.received.len()
        } else {
            HEADER_BYTES + FrameReader::announced_len(&self.received) - self.received.len()
        }
    }

    /// Take a chunk that arrived. The frame it completes, if it does.
    ///
    /// The length is checked as soon as the header is whole, before anything
    /// is allocated for the body.
    pub fn accept(&mut self, chunk: &[u8]) -> (r: Result<Option<Frame>, FrameError>)
        requires
            old(self).wf(),
            chunk@.len() <= old(self).missing(),
        ensures
            final(self).wf(),
            ({
                let all = old(self).received@ + chunk@;
                if unfinished(all) {
                    r matches Ok(None) && final(self).received@ == all
                } else {
                    &&& final(self).received@ == Seq::<u8>::empty()
                    &&& read_view(r) == frame_at_start(all)
                    &&& r is Ok ==> all.len() == HEADER_BYTES + announced(all)
                    &&& r is Err ==> all.len() == HEADER_BYTES
                }
            }),
    {
        append_bytes(&mut self.received, chunk);
        let ghost all = self.received@;
        proof {
            assert(all == old(self).received@ + chunk@);
            if old(self).received@.len() >= HEADER_BYTES {
                assert(all.subrange(1, 5) =~= old(self).received@.subrange(1, 5));
            }
        }
        if self.received.len() < HEADER_BYTES {
            return Ok(None);
        }
        let kind = match FrameKind::from_byte(self.received[0]) {
            Ok(kind) => kind,
            Err(error) => {
                self.received = Vec::new();
                return Err(error);
            },
        };
        let len: usize = FrameReader::announced_len(&self.received);
        if len > MAX_FRAME_BYTES {
            self.received = Vec::new();
            return Err(FrameError::AnnouncedTooLarge(len));
        }
        if self.received.len() < HEADER_BYTES + len {
            return Ok(None);
        }
        let payload = self.received.split_off(HEADER_BYTES);
        self.received = Vec::new();
        Ok(Some(Frame { kind, payload }))
    }

    /// The stream ended. Between frames that is how a peer detaches; inside
    /// one it is a truncated message.
    pub fn ended(&self) -> (r: Result<(), FrameError>)
        requires
            self.wf(),
        ensures
            self.received@.len() == 0 <==> r is Ok,
            self.received@.len() > 0 ==> frame_at_start(self.received@) == Err::<
                Option<FrameView>,
                FrameError,
            >(r->Err_0),
    {
        let n: usize = self.received.len();
        if n == 0 {
            return Ok(());
        }
        if n < HEADER_BYTES {
            return Err(FrameError::EndedInside { filled: n, wanted: HEADER_BYTES });
        }
        let len: usize = FrameReader::announced_len(&self.received);
        if n == HEADER_BYTES {
            return Err(FrameError::EndedBeforeBody(len));
        }
        Err(FrameError::EndedInside { filled: n - HEADER_BYTES, wanted: len })
    }
}

/// How many bytes of `bytes` a reader consumes to give the answer of
/// `frame_at_start`.
pub open spec fn consumed_at_start(bytes: Seq<u8>) -> nat {
    match frame_at_start(bytes) {
        Ok(Some(frame)) => HEADER_BYTES as nat + frame.payload.len(),
        Ok(None) => 0,
        Err(FrameError::UnknownKind(_)) => HEADER_BYTES as nat,
        Err(FrameError::AnnouncedTooLarge(_)) => HEADER_BYTES as nat,
        Err(_) => bytes.len(),
    }
}

/// Read one frame, or `None` at a clean end of stream.
///
/// `None` means the peer closed between frames, which is how a client detaches;
/// an error means it closed inside one, or sent something that is no frame.
pub fn read_frame(reader: &mut ByteStream) -> (r: Result<Option<Frame>, FrameError>)
    requires
        old(reader).wf(),
    ensures
        final(reader).wf(),
        read_view(r) == frame_at_start(old(reader).rest()),
        final(reader).rest() == old(reader).rest().skip(
            consumed_at_start(old(reader).rest()) as int,
        ),
{
    let mut frames = FrameReader::new();
    let ghost start = reader.rest();
    proof {
        assert(start.take(0) =~= Seq::<u8>::empty());
        assert(start.skip(0) =~= start);
    }
    loop
        invariant
            frames.wf(),
            reader.wf(),
            frames.received@.len() <= start.len(),
            frames.received@ == start.take(frames.received@.len() as int),
            reader.rest() == start.skip(frames.received@.len() as int),
            start == old(reader).rest(),
        decreases start.len() - frames.received@.len(),
    {
        let ghost before = frames.received@;
        let chunk = reader.read(frames.wanted());
        if chunk.len() == 0 {
            proof {
                assert(before =~= start);
            }
            return match frames.ended() {
                Ok(()) => Ok(None),
                Err(error) => Err(error),
            };
        }
        proof {
            let n = before.len() + chunk@.len();
            assert(before + chunk@ =~= start.take(n as int));
            assert(reader.rest() =~= start.skip(n as int));
            if n >= HEADER_BYTES {
                assert(start.take(n as int).subrange(1, 5) =~= start.subrange(1, 5));
                assert(start.take(n as int).subrange(HEADER_BYTES as int, n as int)
                    =~= start.subrange(HEADER_BYTES as int, n as int));
            }
        }
        match frames.accept(chunk.as_slice()) {
            Ok(None) => {},
            Ok(Some(frame)) => {
                return Ok(Some(frame));
            },
            Err(error) => {
                return Err(error);
            },
        }
    }
}

proof fn lemma_big_endian_back(n: nat)
    requires
        n <= MAX_FRAME_BYTES,
    ensures
        from_big_endian(big_endian(n)) == n,
{
    let a = n / 16777216 % 256;
    let b = n / 65536 % 256;
    let c = n / 256 % 256;
    let d = n % 256;
    assert(n == a * 16777216 + b * 65536 + c * 256 + d);
}

proof fn lemma_frame_head(frame: FrameView, rest: Seq<u8>)
    requires
        frame.payload.len() <= MAX_FRAME_BYTES,
    ensures
        ({
            let all = frame_bytes(frame) + rest;
            &&& frame_bytes(frame).len() == HEADER_BYTES + frame.payload.len()
            &&& all[0] == kind_byte(frame.kind)
            &&& announced(all) == frame.payload.len()
            &&& all.subrange(HEADER_BYTES as int, HEADER_BYTES + frame.payload.len())
                == frame.payload
        }),
{
    let all = frame_bytes(frame) + rest;
    lemma_big_endian_back(frame.payload.len());
    assert(all.subrange(1, 5) =~= big_endian(frame.payload.len()));
    assert(all.subrange(HEADER_BYTES as int, HEADER_BYTES + frame.payload.len())
        =~= frame.payload);
}

/// What `write_frame` wrote, `read_frame` gives back, and it takes exactly
/// those bytes whatever follows them.
pub proof fn law_read_gives_back_what_was_written(frame: FrameView, rest: Seq<u8>)
    requires
        frame.payload.len() <= MAX_FRAME_BYTES,
    ensures
        frame_at_start(frame_bytes(frame) + rest) == Ok::<Option<FrameView>, FrameError>(
            Some(frame),
        ),
        consumed_at_start(frame_bytes(frame) + rest) == frame_bytes(frame).len(),
        (frame_bytes(frame) + rest).skip(frame_bytes(frame).len() as int) == rest,
{
    lemma_frame_head(frame, rest);
    assert((frame_bytes(frame) + rest).skip(frame_bytes(frame).len() as int) =~= rest);
}

/// A frame that was cut short never reads as a frame nor as a clean end: only
/// a stream that ends before the first byte does.
pub proof fn law_cut_frame_is_an_error(frame: FrameView, kept: int)
    requires
        frame.payload.len() <= MAX_FRAME_BYTES,
        0 <= kept < frame_bytes(frame).len(),
    ensures
        kept == 0 ==> frame_at_start(frame_bytes(frame).take(kept)) == Ok::<
            Option<FrameView>,
            FrameError,
        >(None),
        kept > 0 ==> frame_at_start(frame_bytes(frame).take(kept)) is Err,
{
    let all = frame_bytes(frame);
    lemma_frame_head(frame, Seq::empty());
    assert(all + Seq::<u8>::empty() =~= all);
    if kept >= HEADER_BYTES {
        assert(all.take(kept).subrange(1, 5) =~= all.subrange(1, 5));
    }
}

/// What reading frame after frame until the stream ends gives.
pub open spec fn frames_of(bytes: Seq<u8>) -> Result<Seq<FrameView>, FrameError>
    decreases bytes.len(),
{
    match frame_at_start(bytes) {
        Err(error) => Err(error),
        Ok(None) => Ok(Seq::empty()),
        Ok(Some(frame)) => if consumed_at_start(bytes) > bytes.len() {
            Ok(Seq::empty())
        } else {
            match frames_of(bytes.skip(consumed_at_start(bytes) as int)) {
                Err(error) => Err(error),
                Ok(frames) => Ok(seq![frame] + frames),
            }
        },
    }
}

/// Frames written one after another come back in the order they were written,
/// all of them, and then the stream ends cleanly.
pub proof fn law_streams_keep_frames(frames: Seq<FrameView>)
    requires
        forall|i: int| 0 <= i < frames.len() ==> (#[trigger] frames[i]).payload.len()
            <= MAX_FRAME_BYTES,
    ensures
        frames_of(stream_bytes(frames)) == Ok::<Seq<FrameView>, FrameError>(frames),
    decreases frames.len(),
{
    if frames.len() > 0 {
        let rest = frames.skip(1);
        assert forall|i: int| 0 <= i < rest.len() implies (#[trigger] rest[i]).payload.len()
            <= MAX_FRAME_BYTES by {
            assert(rest[i] == frames[i + 1]);
        }
        law_streams_keep_frames(rest);
        law_read_gives_back_what_was_written(frames[0], stream_bytes(rest));
        assert(seq![frames[0]] + rest =~= frames);
    } else {
        assert(frames =~= Seq::<FrameView>::empty());
    }
}

/// A frame on the wire is its kind, one byte that is 1 for control and 2 for
/// terminal, the length of its payload in four bytes with the largest first,
/// and the payload.
pub proof fn law_frames_have_a_five_byte_header(frame: FrameView)
    requires
        frame.payload.len() <= 0xffff_ffff,
    ensures
        ({
            let b = frame_bytes(frame);
            &&& b.len() == 5 + frame.payload.len()
            &&& b[0] == if frame.kind == FrameKind::Control {
                1u8
            } else {
                2u8
            }
            &&& b[1] * 16777216 + b[2] * 65536 + b[3] * 256 + b[4] == frame.payload.len()
            &&& b.skip(5) == frame.payload
        }),
{
    let b = frame_bytes(frame);
    assert(b.skip(5) =~= frame.payload);
}

/// What is refused of a stream's start and why: fewer than five bytes, a kind
/// other than the two there are, a payload of more than four megabytes, and a
/// payload that is cut off. Nothing at all is the end, and what is left is read
/// as a frame, which has its kind and payload from the stream.
pub proof fn law_what_a_stream_starts_with(bytes: Seq<u8>)
    requires
        bytes.len() <= usize::MAX,
    ensures
        ({
            let read = frame_at_start(bytes);
            let known = bytes[0] == 1 || bytes[0] == 2;
            let len = bytes[1] * 16777216 + bytes[2] * 65536 + bytes[3] * 256 + bytes[4];
            &&& bytes.len() == 0 <==> read == Ok::<Option<FrameView>, FrameError>(None)
            &&& 0 < bytes.len() < 5 ==> (read matches Err(
                FrameError::EndedInside { filled, wanted },
            ) && filled == bytes.len() && wanted == 5)
            &&& bytes.len() >= 5 && !known <==> read == Err::<Option<FrameView>, FrameError>(
                FrameError::UnknownKind(bytes[0]),
            )
            &&& bytes.len() >= 5 && known && len > 4194304 <==> (read matches Err(
                FrameError::AnnouncedTooLarge(n),
            ) && n == len)
            &&& bytes.len() == 5 && known && 0 < len <= 4194304 ==> (read matches Err(
                FrameError::EndedBeforeBody(n),
            ) && n == len)
            &&& 5 < bytes.len() < 5 + len && known && len <= 4194304 ==> (read matches Err(
                FrameError::EndedInside { filled, wanted },
            ) && filled == bytes.len() - 5 && wanted == len)
            &&& bytes.len() >= 5 && known && len <= 4194304 && bytes.len() >= 5 + len <==> (
            read matches Ok(Some(frame)) && frame.payload == bytes.subrange(5, 5 + len)
                && frame.kind == if bytes[0] == 1 {
                FrameKind::Control
            } else {
                FrameKind::Terminal
            })
        }),
{
    if bytes.len() >= 5 {
        let four = bytes.subrange(1, 5);
        assert(four[0] == bytes[1] && four[1] == bytes[2] && four[2] == bytes[3] && four[3]
            == bytes[4]);
        assert(0 <= announced(bytes) <= 0xffff_ffff);
    }
}

/// A frame reader asks for the header until it has it, and then for what the
/// header announces, no less and no more.
pub proof fn law_readers_ask_for_one_frame(reader: FrameReader)
    requires
        reader.wf(),
    ensures
        reader.received@.len() < 5 ==> reader.missing() == 5 - reader.received@.len(),
        reader.received@.len() >= 5 ==> reader.missing() + reader.received@.len() == 5
            + reader.received@[1] * 16777216 + reader.received@[2] * 65536 + reader.received@[3]
            * 256 + reader.received@[4],
        reader.missing() > 0,
{
    if reader.received@.len() >= 5 {
        let four = reader.received@.subrange(1, 5);
        assert(four[0] == reader.received@[1] && four[1] == reader.received@[2] && four[2]
            == reader.received@[3] && four[3] == reader.received@[4]);
    }
}

/// A reader waits for more exactly where it has less than a header, or a header
/// it can follow and less than that announces.
pub proof fn law_when_a_frame_is_unfinished(bytes: Seq<u8>)
    ensures
        ({
            let known = bytes[0] == 1 || bytes[0] == 2;
            let len = bytes[1] * 16777216 + bytes[2] * 65536 + bytes[3] * 256 + bytes[4];
            unfinished(bytes) <==> bytes.len() < 5 || (known && len <= 4194304 && bytes.len() < 5
                + len)
        }),
{
    if bytes.len() >= 5 {
        let four = bytes.subrange(1, 5);
        assert(four[0] == bytes[1] && four[1] == bytes[2] && four[2] == bytes[3] && four[3]
            == bytes[4]);
    }
}

/// Reading takes a whole frame off a stream, or its header where that cannot be
/// followed, or all there is of a frame that was cut off.
pub proof fn law_reading_takes_one_frame(bytes: Seq<u8>)
    ensures
        frame_at_start(bytes) matches Ok(Some(frame)) ==> consumed_at_start(bytes) == 5
            + frame.payload.len() && consumed_at_start(bytes) <= bytes.len(),
        frame_at_start(bytes) matches Ok(None) ==> consumed_at_start(bytes) == 0,
        frame_at_start(bytes) matches Err(error) ==> consumed_at_start(bytes) == if error
            is UnknownKind || error is AnnouncedTooLarge {
            5
        } else {
            bytes.len()
        },
{
}

/// What is wrong with a frame is said with the numbers that show it.
pub proof fn law_frame_errors_in_words(error: FrameError)
    ensures
        error matches FrameError::UnknownKind(byte) ==> frame_error_text(error)
            == "unknown frame kind "@ + decimal_text(byte as nat),
        error matches FrameError::PayloadTooLarge(len) ==> frame_error_text(error)
            == "frame payload of "@ + decimal_text(len as nat) + " bytes exceeds the "@
            + decimal_text(4194304) + "-byte limit"@,
        error matches FrameError::AnnouncedTooLarge(len) ==> frame_error_text(error)
            == "frame announces "@ + decimal_text(len as nat) + " bytes, over the "@
            + decimal_text(4194304) + "-byte limit"@,
        error matches FrameError::EndedBeforeBody(len) ==> frame_error_text(error)
            == "stream ended inside a frame body of "@ + decimal_text(len as nat) + " bytes"@,
        error matches FrameError::EndedInside { filled, wanted } ==> frame_error_text(error)
            == "stream ended after "@ + decimal_text(filled as nat) + " of "@ + decimal_text(
            wanted as nat,
        ) + " bytes"@,
{
}

} // verus!
