//! Legacy DAB MPEG Audio Layer II: frame synchronisation over the byte
//! stream that channel decoding produces, and the conversion of decoded PCM
//! to the application's fixed 48 kHz stereo layout.
//!
//! At MPEG-1/48 kHz one 24 ms DAB logical frame is exactly one 1152-sample
//! MP2 frame; buffering and sync recovery also cover other legal Layer II
//! rates and damaged frames.
use oxideav_mp2::header::{find_sync, FrameHeader};
use vstd::prelude::*;

verus! {

/// PCM produced from one or more complete MP2 frames.
#[derive(Debug)]
pub struct Mp2DecodeOutput<S> {
    /// Interleaved PCM samples.
    pub pcm: Vec<S>,
    pub sample_rate: u32,
    pub channels: usize,
}

/// Output sample `j` of the 48 kHz stereo conversion: frame `j / (2 * f)`
/// of the input (each input frame is repeated `f` times), left or right
/// channel by the parity of `j`, mono duplicated to both channels.
pub open spec fn stereo_source_index(j: int, channels: int, f: int) -> int {
    (j / (2 * f)) * channels + if channels == 2 { j % 2 } else { 0 }
}

/// Repetition factor of the conversion: 1 at 48 kHz, 2 at 24 kHz.
pub open spec fn rate_factor(sample_rate: u32) -> int {
    if sample_rate == 48_000 {
        1
    } else {
        2
    }
}

impl<S: Copy> Mp2DecodeOutput<S> {
    /// Convert the DAB-legal 48 kHz or 24 kHz mono/stereo PCM formats to the
    /// application's fixed 48 kHz stereo output. MPEG-2/24 kHz samples are
    /// repeated by 2; mono is duplicated without changing level. Trailing
    /// samples that do not fill a whole frame are dropped.
    pub fn into_stereo_48k(self) -> (r: Option<Vec<S>>)
        ensures
            self.pcm@.len() == 0 ==> r is Some && r.unwrap()@.len() == 0,
            self.pcm@.len() > 0 ==> (r is Some <==> ((self.channels == 1 || self.channels == 2) && (
            self.sample_rate == 24_000 || self.sample_rate == 48_000))),
            r is Some && self.pcm@.len() > 0 ==> {
                let v = r.unwrap();
                let f = rate_factor(self.sample_rate);
                let frames = self.pcm@.len() as int / (self.channels as int);
                &&& v@.len() == frames * 2 * f
                &&& forall|j: int|
                    0 <= j < v@.len() ==> #[trigger] v@[j] == self.pcm@[stereo_source_index(
                        j,
                        self.channels as int,
                        f,
                    )]
            },
    {
        if self.pcm.len() == 0 {
            return Some(Vec::new());
        }
        if !(self.channels == 1 || self.channels == 2) || !(self.sample_rate == 24_000
            || self.sample_rate == 48_000) {
            return None;
        }
        let ch = self.channels;
        let total = self.pcm.len();
        let frames = total / ch;
        let reps: usize = if self.sample_rate == 48_000 { 1 } else { 2 };
        let ghost f = rate_factor(self.sample_rate);
        proof {
            assert(frames * ch <= self.pcm@.len()) by (nonlinear_arith)
                requires
                    frames == self.pcm@.len() as int / (ch as int),
                    ch >= 1,
            ;
            assert(frames <= self.pcm@.len()) by (nonlinear_arith)
                requires
                    frames * ch <= self.pcm@.len(),
                    ch >= 1,
            ;
        }
        let mut out: Vec<S> = Vec::new();
        let mut i: usize = 0;
        while i < frames
            invariant
                0 <= i <= frames,
                total == self.pcm@.len(),
                ch == self.channels,
                ch == 1 || ch == 2,
                frames == self.pcm@.len() as int / (ch as int),
                frames * ch <= self.pcm@.len(),
                frames <= self.pcm@.len(),
                reps == f,
                f == 1 || f == 2,
                out@.len() == i * 2 * f,
                forall|j: int|
                    0 <= j < out@.len() ==> #[trigger] out@[j] == self.pcm@[stereo_source_index(j, ch as int, f)],
            decreases frames - i,
        {
            proof {
                assert(i * ch + ch <= frames * ch) by (nonlinear_arith)
                    requires
                        i < frames,
                ;
                assert(i * ch + ch <= total);
            }
            let left = self.pcm[i * ch];
            let right = if ch == 2 { self.pcm[i * ch + 1] } else { left };
            let mut k: usize = 0;
            while k < reps
                invariant
                    0 <= k <= reps,
                    reps == f,
                    f == 1 || f == 2,
                    i < frames,
                    ch == 1 || ch == 2,
                    i * ch + ch <= self.pcm@.len(),
                    left == self.pcm@[i * ch],
                    right == self.pcm@[i * ch + if ch == 2 { 1int } else { 0int }],
                    out@.len() == i * 2 * f + 2 * k,
                    forall|j: int|
                        0 <= j < out@.len() ==> #[trigger] out@[j] == self.pcm@[stereo_source_index(
                            j,
                            ch as int,
                            f,
                        )],
                decreases reps - k,
            {
                let ghost n = out@.len() as int;
                proof {
                    assert(n / (2 * f) == i && n % 2 == 0 && (n + 1) / (2 * f) == i && (n + 1) % 2 == 1)
                        by (nonlinear_arith)
                        requires
                            n == i * 2 * f + 2 * k,
                            k < f,
                            f == 1 || f == 2,
                    ;
                }
                out.push(left);
                out.push(right);
                k += 1;
            }
            proof {
                assert(i * 2 * f + 2 * f == (i + 1) * 2 * f) by (nonlinear_arith);
            }
            i += 1;
        }
        Some(out)
    }
}

// ---------------------------------------------------------------------------
// Layer II headers and syncwords
// ---------------------------------------------------------------------------

/// What frame synchronisation reads from a Layer II frame header.
#[derive(Debug, Clone, Copy, PartialEq, Eq)]
pub struct Mp2Header {
    /// Bit rate in bit/s.
    pub bit_rate: u32,
    /// Sampling frequency in Hz.
    pub sample_rate: u32,
    /// One extra byte (slot) in this frame.
    pub padding: bool,
}

/// The header that `oxideav_mp2::header::FrameHeader::parse` reads from a
/// buffer, or `None` where it reports an error.
pub uninterp spec fn spec_parse_header(buf: Seq<u8>) -> Option<Mp2Header>;

/// A header on the Layer II bit-rate ladders (8 to 384 kbit/s) at one of
/// the six Layer II sampling frequencies.
pub open spec fn legal_header(h: Mp2Header) -> bool {
    8_000 <= h.bit_rate <= 384_000 && legal_sample_rate(h.sample_rate)
}

/// Sampling frequencies of MPEG-1 and MPEG-2 LSF Layer II.
pub open spec fn legal_sample_rate(r: u32) -> bool {
    r == 16_000 || r == 22_050 || r == 24_000 || r == 32_000 || r == 44_100 || r == 48_000
}

/// Parse a 4-byte Layer II header (`oxideav_mp2::header::FrameHeader::parse`,
/// strict: free format rejected). The parse reads only the first four bytes
/// of its buffer, so the library hands it exactly those.
///
/// Trusted: the result is the named parse of the bytes; fewer than four
/// bytes are rejected; an accepted header starts with the 12-bit
/// syncword, and its bit rate is on the Layer II ladders (8 to 384 kbit/s)
/// and its sampling frequency one of the six Layer II rates. Which headers
/// are accepted beyond that is not stated.
#[verifier::external_body]
fn parse_header(head: &[u8]) -> (r: Option<Mp2Header>)
    ensures
        r == spec_parse_header(head@),
        head@.len() < 4 ==> r is None,
        r matches Some(h) ==> {
            &&& head@[0] == 0xFFu8
            &&& head@[1] & 0xF0u8 == 0xF0u8
            &&& legal_header(h)
        },
{
    match FrameHeader::parse(head) {
        Ok(h) => Some(Mp2Header { bit_rate: h.bit_rate, sample_rate: h.sample_rate, padding: h.padding }),
        Err(_) => None,
    }
}

/// Frame length in bytes: `floor(144 * bit_rate / sample_rate)` slots plus
/// the padding slot.
pub open spec fn spec_frame_size(h: Mp2Header) -> nat {
    (144 * (h.bit_rate as nat)) / (h.sample_rate as nat) + if h.padding { 1nat } else { 0nat }
}

impl Mp2Header {
    /// Length of this frame in bytes.
    pub fn frame_size_bytes(&self) -> (n: usize)
        requires
            self.sample_rate > 0,
            spec_frame_size(*self) <= usize::MAX,
        ensures
            n == spec_frame_size(*self),
    {
        let slots = (144u64 * self.bit_rate as u64) / self.sample_rate as u64;
        proof {
            assert(slots <= 144 * self.bit_rate) by (nonlinear_arith)
                requires
                    slots == (144 * (self.bit_rate as nat)) / (self.sample_rate as nat),
                    self.sample_rate >= 1,
            ;
        }
        slots as usize + if self.padding { 1 } else { 0 }
    }
}

/// A 12-bit syncword starts at byte `i`.
pub open spec fn is_sync(buf: Seq<u8>, i: int) -> bool {
    0 <= i && i + 1 < buf.len() && buf[i] == 0xFFu8 && buf[i + 1] & 0xF0u8 == 0xF0u8
}

/// Offset of the first syncword at or after `i`.
pub open spec fn first_sync_from(buf: Seq<u8>, i: int) -> Option<int>
    decreases buf.len() - i,
{
    if i < 0 || i + 1 >= buf.len() {
        None
    } else if is_sync(buf, i) {
        Some(i)
    } else {
        first_sync_from(buf, i + 1)
    }
}

/// Offset of the first syncword of `buf`.
pub open spec fn spec_find_sync(buf: Seq<u8>) -> Option<int> {
    first_sync_from(buf, 0)
}

/// Byte offset of the first syncword (0xFF, then a byte with its top nibble
/// 0xF) in `buf` (`oxideav_mp2::header::find_sync`).
///
/// Trusted: the result is the first such offset, or `None` when there is none.
#[verifier::external_body]
fn find_frame_sync(buf: &[u8]) -> (r: Option<usize>)
    ensures
        r matches Some(i) ==> spec_find_sync(buf@) == Some(i as int),
        r is None ==> spec_find_sync(buf@) is None,
{
    find_sync(buf)
}

// ---------------------------------------------------------------------------
// Frame synchronisation
// ---------------------------------------------------------------------------

/// What to do at a syncword, given its parsed header and the bytes buffered
/// from the syncword on.
#[derive(Debug, Clone, Copy, PartialEq, Eq)]
pub enum SyncStep {
    /// The header did not parse: a false syncword, skip one byte.
    SkipByte,
    /// The frame has not arrived whole yet.
    Wait,
    /// A complete frame of this many bytes is at the front.
    Frame(usize),
}

/// The step at a syncword: skip a byte when the header did not parse, wait
/// while fewer bytes than the frame length are buffered, else the frame.
pub open spec fn spec_frame_step(header: Option<Mp2Header>, buffered: nat) -> SyncStep {
    match header {
        None => SyncStep::SkipByte,
        Some(h) => if buffered < spec_frame_size(h) {
            SyncStep::Wait
        } else {
            SyncStep::Frame(spec_frame_size(h) as usize)
        },
    }
}

/// Decide the step at a syncword from its parsed header and the number of
/// bytes buffered from the syncword on.
pub fn frame_step(header: Option<Mp2Header>, buffered: usize) -> (s: SyncStep)
    requires
        header matches Some(h) ==> legal_header(h),
    ensures
        s == spec_frame_step(header, buffered as nat),
        s matches SyncStep::Frame(n) ==> n == spec_frame_size(header.unwrap()) && 24 <= n <= 3457 && n
            <= buffered,
{
    match header {
        None => SyncStep::SkipByte,
        Some(h) => {
            let frame_size = header_frame_size(&h);
            if buffered < frame_size {
                SyncStep::Wait
            } else {
                SyncStep::Frame(frame_size)
            }
        },
    }
}

/// One scan of the buffered stream for a complete frame: the buffer that
/// remains, the bytes skipped while searching, and the length of the
/// complete frame now at the front of the buffer, if any.
///
/// Bytes before a syncword are skipped; without a syncword everything is
/// skipped except one trailing 0xFF, which may start a syncword split over
/// two logical frames; a syncword whose header does not parse is skipped one
/// byte at a time; a frame whose bytes have not all arrived waits.
pub open spec fn sync_scan(buf: Seq<u8>) -> (Seq<u8>, nat, Option<nat>)
    decreases buf.len(),
{
    match spec_find_sync(buf) {
        None => {
            let keep: int = if buf.len() > 0 && buf.last() == 0xFFu8 { 1 } else { 0 };
            (buf.skip(buf.len() - keep), (buf.len() - keep) as nat, None)
        },
        Some(i) => {
            if i > 0 && i < buf.len() {
                let (b, n, f) = sync_scan(buf.skip(i));
                (b, n + i as nat, f)
            } else if buf.len() < 4 {
                (buf, 0, None)
            } else {
                let header = spec_parse_header(buf.take(4));
                match spec_frame_step(header, buf.len()) {
                    SyncStep::SkipByte => {
                        let (b, n, f) = sync_scan(buf.skip(1));
                        (b, n + 1, f)
                    },
                    SyncStep::Wait => (buf, 0, None),
                    SyncStep::Frame(_) => (buf, 0, Some(spec_frame_size(header.unwrap()))),
                }
            }
        },
    }
}

proof fn lemma_first_sync_is_sync(buf: Seq<u8>, k: int)
    requires
        first_sync_from(buf, k) is Some,
    ensures
        is_sync(buf, first_sync_from(buf, k).unwrap()),
        k <= first_sync_from(buf, k).unwrap(),
    decreases buf.len() - k,
{
    if !(k < 0 || k + 1 >= buf.len()) && !is_sync(buf, k) {
        lemma_first_sync_is_sync(buf, k + 1);
    }
}

/// A legal header gives a frame of 24 to 3457 bytes.
proof fn lemma_frame_size_bounds(h: Mp2Header)
    requires
        8_000 <= h.bit_rate <= 384_000,
        legal_sample_rate(h.sample_rate),
    ensures
        24 <= spec_frame_size(h) <= 3457,
{
    let q = (144 * (h.bit_rate as nat)) / (h.sample_rate as nat);
    assert(24 <= q <= 3456) by (nonlinear_arith)
        requires
            q == (144 * (h.bit_rate as nat)) / (h.sample_rate as nat),
            8_000 <= h.bit_rate <= 384_000,
            16_000 <= h.sample_rate <= 48_000,
    ;
}

/// The frame length of a header that `FrameHeader::parse` accepted.
fn header_frame_size(h: &Mp2Header) -> (n: usize)
    requires
        legal_header(*h),
    ensures
        n == spec_frame_size(*h),
        24 <= n <= 3457,
{
    proof {
        lemma_frame_size_bounds(*h);
    }
    h.frame_size_bytes()
}

/// The state of frame synchronisation.
pub struct SyncModel {
    /// Bytes received and not yet consumed.
    pub buffer: Seq<u8>,
    pub frames_decoded: usize,
    pub decode_errors: usize,
    pub sync_bytes_skipped: usize,
    /// Sampling frequency of the last decoded frame (0 before any).
    pub sample_rate: u32,
    /// Channels of the last decoded frame (0 before any).
    pub channels: usize,
    /// Bytes received in all.
    pub received: nat,
    /// Bytes consumed as frames handed out for decoding (a whole frame when
    /// it decoded, one byte when it failed).
    pub consumed: nat,
}

/// Every byte received is skipped, consumed, or still buffered.
pub open spec fn accounted(m: SyncModel) -> bool {
    m.received == m.sync_bytes_skipped + m.consumed + m.buffer.len()
}

/// A synchronizer's model before any input.
pub open spec fn sync_start() -> SyncModel {
    SyncModel {
        buffer: Seq::empty(),
        frames_decoded: 0,
        decode_errors: 0,
        sync_bytes_skipped: 0,
        sample_rate: 0,
        channels: 0,
        received: 0,
        consumed: 0,
    }
}

/// Layer II frame synchronizer: buffers the byte stream, finds syncwords,
/// and hands out complete frames for decoding.
pub struct Mp2Sync {
    buffer: Vec<u8>,
    frames_decoded: usize,
    decode_errors: usize,
    sync_bytes_skipped: usize,
    sample_rate: u32,
    channels: usize,
    received: Ghost<nat>,
    consumed: Ghost<nat>,
}

impl View for Mp2Sync {
    type V = SyncModel;

    closed spec fn view(&self) -> SyncModel {
        SyncModel {
            buffer: self.buffer@,
            frames_decoded: self.frames_decoded,
            decode_errors: self.decode_errors,
            sync_bytes_skipped: self.sync_bytes_skipped,
            sample_rate: self.sample_rate,
            channels: self.channels,
            received: self.received@,
            consumed: self.consumed@,
        }
    }
}

/// Drop the first `n` bytes of `v`.
fn drop_front(v: &mut Vec<u8>, n: usize)
    requires
        n <= old(v)@.len(),
    ensures
        final(v)@ == old(v)@.skip(n as int),
{
    let tail = v.split_off(n);
    *v = tail;
}

impl Mp2Sync {
    /// An empty synchronizer: nothing buffered, all counters, the sampling
    /// frequency and the channel count at 0.
    pub fn new() -> (r: Self)
        ensures
            r@ == sync_start(),
            accounted(r@),
    {
        Mp2Sync {
            buffer: Vec::new(),
            frames_decoded: 0,
            decode_errors: 0,
            sync_bytes_skipped: 0,
            sample_rate: 0,
            channels: 0,
            received: Ghost(0),
            consumed: Ghost(0),
        }
    }

    /// Frames handed out and decoded.
    pub fn frames_decoded(&self) -> (n: usize)
        ensures
            n == self@.frames_decoded,
    {
        self.frames_decoded
    }

    /// Frames handed out that failed to decode.
    pub fn decode_errors(&self) -> (n: usize)
        ensures
            n == self@.decode_errors,
    {
        self.decode_errors
    }

    /// Bytes skipped while searching for a frame.
    pub fn sync_bytes_skipped(&self) -> (n: usize)
        ensures
            n == self@.sync_bytes_skipped,
    {
        self.sync_bytes_skipped
    }

    /// Sampling frequency of the last decoded frame, 0 before any.
    pub fn sample_rate(&self) -> (r: u32)
        ensures
            r == self@.sample_rate,
    {
        self.sample_rate
    }

    /// Channel count of the last decoded frame, 0 before any.
    pub fn channels(&self) -> (n: usize)
        ensures
            n == self@.channels,
    {
        self.channels
    }

    /// Bytes received and not yet consumed; a complete frame that
    /// `next_frame` announced starts at their front.
    pub fn buffered(&self) -> (b: &[u8])
        ensures
            b@ == self@.buffer,
    {
        self.buffer.as_slice()
    }

    /// Append one 24 ms DAB logical frame to the stream.
    pub fn push(&mut self, bytes: &[u8])
        ensures
            final(self)@ == (SyncModel {
                buffer: old(self)@.buffer + bytes@,
                received: old(self)@.received + bytes@.len(),
                ..old(self)@
            }),
            accounted(old(self)@) ==> accounted(final(self)@),
    {
        let ghost before = self.buffer@;
        self.buffer.extend_from_slice(bytes);
        proof {
            self.received = Ghost(self.received@ + bytes@.len());
        }
        assert forall|i: int| 0 <= i < self.buffer@.len() implies #[trigger] self.buffer@[i] == (before
            + bytes@)[i] by {
            if i >= before.len() {
                assert(cloned::<u8>(bytes@[i - before.len()], self.buffer@[i]));
            }
        }
        assert(self.buffer@ =~= before + bytes@);
    }

    /// Search the buffered stream for the next complete frame (see
    /// [`sync_scan`]); returns its length when one is at the front of the
    /// buffer.
    pub fn next_frame(&mut self) -> (r: Option<usize>)
        requires
            old(self)@.sync_bytes_skipped + old(self)@.buffer.len() <= usize::MAX,
        ensures
            ({
                let (b, n, f) = sync_scan(old(self)@.buffer);
                &&& final(self)@ == (SyncModel {
                    buffer: b,
                    sync_bytes_skipped: (old(self)@.sync_bytes_skipped + n) as usize,
                    ..old(self)@
                })
                &&& (r is Some <==> f is Some)
                &&& (r matches Some(x) ==> f == Some(x as nat))
            }),
            r matches Some(x) ==> 24 <= x <= final(self)@.buffer.len(),
            accounted(old(self)@) ==> accounted(final(self)@),
    {
        proof {
            lemma_sync_scan(self.buffer@);
        }
        let ghost orig = self.buffer@;
        let ghost skipped0 = self.sync_bytes_skipped as int;
        loop
            invariant
                self.frames_decoded == old(self).frames_decoded,
                self.decode_errors == old(self).decode_errors,
                self.sample_rate == old(self).sample_rate,
                self.channels == old(self).channels,
                self.received == old(self).received,
                self.consumed == old(self).consumed,
                self.sync_bytes_skipped + self.buffer@.len() <= usize::MAX,
                skipped0 == old(self)@.sync_bytes_skipped,
                orig == old(self)@.buffer,
                sync_scan(orig).1 <= orig.len(),
                sync_scan(orig).0 == orig.skip(sync_scan(orig).1 as int),
                ({
                    let (b0, n0, f0) = sync_scan(orig);
                    let (b1, n1, f1) = sync_scan(self.buffer@);
                    b0 == b1 && f0 == f1 && n0 == (self.sync_bytes_skipped - skipped0) + n1
                }),
            decreases self.buffer@.len(),
        {
            let ghost cur = self.buffer@;
            match find_frame_sync(self.buffer.as_slice()) {
                None => {
                    // Preserve one trailing 0xFF so a split syncword survives.
                    let len = self.buffer.len();
                    let keep: usize = if len > 0 && self.buffer[len - 1] == 0xFF { 1 } else { 0 };
                    let drop_n = len - keep;
                    self.sync_bytes_skipped += drop_n;
                    if drop_n > 0 {
                        drop_front(&mut self.buffer, drop_n);
                    } else {
                        assert(cur.skip(0) =~= cur);
                    }
                    return None;
                },
                Some(sync) => {
                    proof {
                        lemma_first_sync_is_sync(cur, 0);
                    }
                    if sync > 0 {
                        self.sync_bytes_skipped += sync;
                        drop_front(&mut self.buffer, sync);
                    }
                    let ghost nb = self.buffer@;
                    proof {
                        assert(is_sync(nb, 0));
                        assert(spec_find_sync(nb) == Some(0int));
                        if sync > 0 {
                            let (b1, n1, f1) = sync_scan(nb);
                            assert(sync_scan(cur) == (b1, n1 + sync as nat, f1));
                        }
                    }
                    if self.buffer.len() < 4 {
                        assert(sync_scan(nb) == (nb, 0nat, None::<nat>));
                        return None;
                    }
                    let head = vstd::slice::slice_subrange(self.buffer.as_slice(), 0, 4);
                    assert(head@ == nb.take(4));
                    let header = parse_header(head);
                    match frame_step(header, self.buffer.len()) {
                        SyncStep::SkipByte => {
                            self.sync_bytes_skipped += 1;
                            drop_front(&mut self.buffer, 1);
                        },
                        SyncStep::Wait => {
                            assert(sync_scan(nb) == (nb, 0nat, None::<nat>));
                            return None;
                        },
                        SyncStep::Frame(frame_size) => {
                            return Some(frame_size);
                        },
                    }
                },
            }
        }
    }

    /// The frame at the front of the buffer decoded, at `sample_rate` Hz with
    /// `channels` channels: consume it and record its format.
    pub fn frame_decoded(&mut self, frame_size: usize, sample_rate: u32, channels: usize)
        requires
            frame_size <= old(self)@.buffer.len(),
            old(self)@.frames_decoded < usize::MAX,
        ensures
            final(self)@ == (SyncModel {
                buffer: old(self)@.buffer.skip(frame_size as int),
                frames_decoded: (old(self)@.frames_decoded + 1) as usize,
                sample_rate,
                channels,
                consumed: old(self)@.consumed + frame_size as nat,
                ..old(self)@
            }),
            accounted(old(self)@) ==> accounted(final(self)@),
    {
        self.frames_decoded += 1;
        self.sample_rate = sample_rate;
        self.channels = channels;
        drop_front(&mut self.buffer, frame_size);
        proof {
            self.consumed = Ghost(self.consumed@ + frame_size as nat);
        }
    }

    /// The frame at the front of the buffer failed to decode: advance one
    /// byte rather than discarding a potentially valid following frame after
    /// a false sync or a corrupted frame.
    pub fn frame_failed(&mut self)
        requires
            old(self)@.buffer.len() >= 1,
            old(self)@.decode_errors < usize::MAX,
        ensures
            final(self)@ == (SyncModel {
                buffer: old(self)@.buffer.skip(1),
                decode_errors: (old(self)@.decode_errors + 1) as usize,
                consumed: old(self)@.consumed + 1,
                ..old(self)@
            }),
            accounted(old(self)@) ==> accounted(final(self)@),
    {
        self.decode_errors += 1;
        drop_front(&mut self.buffer, 1);
        proof {
            self.consumed = Ghost(self.consumed@ + 1);
        }
    }
}

// ---------------------------------------------------------------------------
// Laws
// ---------------------------------------------------------------------------

/// Synchronisation only ever drops bytes from the front of the stream: what
/// remains is the stream without the skipped bytes. A frame is announced only
/// at a syncword whose header parses and whose bytes have all arrived; when
/// none is announced, what remains is at most a trailing 0xFF (the possible
/// start of a split syncword) or the start of a frame still arriving.
pub proof fn lemma_sync_scan(buf: Seq<u8>)
    ensures
        ({
            let (b, n, f) = sync_scan(buf);
            &&& n <= buf.len()
            &&& b == buf.skip(n as int)
            &&& (f matches Some(x) ==> {
                &&& is_sync(b, 0)
                &&& spec_parse_header(b.take(4)) is Some
                &&& x == spec_frame_size(spec_parse_header(b.take(4)).unwrap())
                &&& x <= b.len()
            })
            &&& (f is None ==> {
                ||| b.len() == 0
                ||| (b.len() == 1 && b[0] == 0xFFu8)
                ||| (is_sync(b, 0) && b.len() < 4)
                ||| (is_sync(b, 0) && spec_parse_header(b.take(4)) is Some && b.len() < spec_frame_size(
                    spec_parse_header(b.take(4)).unwrap(),
                ))
            })
        }),
    decreases buf.len(),
{
    match spec_find_sync(buf) {
        None => {
            let keep: int = if buf.len() > 0 && buf.last() == 0xFFu8 { 1 } else { 0 };
            let b = buf.skip(buf.len() - keep);
            if keep == 1 {
                assert(b[0] == buf.last());
            }
        },
        Some(i) => {
            lemma_first_sync_is_sync(buf, 0);
            if i > 0 && i < buf.len() {
                lemma_sync_scan(buf.skip(i));
                let (b1, n1, f1) = sync_scan(buf.skip(i));
                assert(buf.skip(i).skip(n1 as int) =~= buf.skip(i + n1));
            } else if buf.len() < 4 {
                assert(buf.skip(0) =~= buf);
            } else {
                match spec_parse_header(buf.take(4)) {
                    None => {
                        lemma_sync_scan(buf.skip(1));
                        let (b1, n1, f1) = sync_scan(buf.skip(1));
                        assert(buf.skip(1).skip(n1 as int) =~= buf.skip(1 + n1 as int));
                    },
                    Some(h) => {
                        assert(buf.skip(0) =~= buf);
                    },
                }
            }
        },
    }
}

proof fn lemma_first_sync_none(buf: Seq<u8>, k: int, i: int)
    requires
        first_sync_from(buf, k) is None,
        0 <= k <= i,
    ensures
        !is_sync(buf, i),
    decreases buf.len() - k,
{
    if !(k < 0 || k + 1 >= buf.len()) && k < i {
        lemma_first_sync_none(buf, k + 1, i);
    }
}

proof fn lemma_first_sync_before(buf: Seq<u8>, k: int, i: int)
    requires
        first_sync_from(buf, k) matches Some(x) && k <= i < x,
    ensures
        !is_sync(buf, i),
    decreases buf.len() - k,
{
    if k < i {
        lemma_first_sync_before(buf, k + 1, i);
    }
}

proof fn lemma_first_sync_skip(buf: Seq<u8>, k: int, j: int)
    requires
        0 <= k <= j,
        forall|i: int| k <= i < j ==> !is_sync(buf, i),
    ensures
        first_sync_from(buf, k) == first_sync_from(buf, j),
    decreases j - k,
{
    if k < j && k + 1 < buf.len() {
        assert(!is_sync(buf, k));
        lemma_first_sync_skip(buf, k + 1, j);
    }
}

proof fn lemma_first_sync_shift(pre: Seq<u8>, rest: Seq<u8>, j: int)
    requires
        0 <= j,
    ensures
        match first_sync_from(rest, j) {
            None => first_sync_from(pre + rest, pre.len() + j) is None,
            Some(x) => first_sync_from(pre + rest, pre.len() + j) == Some(pre.len() + x),
        },
    decreases rest.len() - j,
{
    let buf = pre + rest;
    if j + 1 < rest.len() {
        assert(buf[pre.len() + j] == rest[j] && buf[pre.len() + j + 1] == rest[j + 1]);
        assert(is_sync(buf, pre.len() + j) == is_sync(rest, j));
        if !is_sync(rest, j) {
            lemma_first_sync_shift(pre, rest, j + 1);
        }
    }
}

/// Skipping a prefix in which no syncword starts: scanning `pre ++ rest` is
/// scanning `rest`, with the prefix counted as skipped (provided a trailing
/// 0xFF of the prefix is not the last byte of the whole).
proof fn lemma_scan_prefix(pre: Seq<u8>, rest: Seq<u8>)
    requires
        forall|i: int| 0 <= i < pre.len() ==> !is_sync(pre + rest, i),
        rest.len() > 0 || pre.len() == 0 || pre.last() != 0xFFu8,
    ensures
        ({
            let (b1, n1, f1) = sync_scan(rest);
            sync_scan(pre + rest) == (b1, n1 + pre.len(), f1)
        }),
{
    let buf = pre + rest;
    if pre.len() == 0 {
        assert(buf =~= rest);
    } else {
        lemma_first_sync_skip(buf, 0, pre.len() as int);
        lemma_first_sync_shift(pre, rest, 0);
        match spec_find_sync(rest) {
            None => {
                if rest.len() > 0 {
                    assert(buf.last() == rest.last());
                    let keep: int = if rest.last() == 0xFFu8 { 1 } else { 0 };
                    assert(buf.skip(buf.len() - keep) =~= rest.skip(rest.len() - keep));
                } else {
                    assert(buf.last() == pre.last());
                    assert(buf.skip(buf.len() as int) =~= rest.skip(0));
                }
            },
            Some(j) => {
                lemma_first_sync_is_sync(rest, 0);
                let i = pre.len() + j;
                assert(buf.skip(i) =~= rest.skip(j));
                if j == 0 {
                    assert(rest.skip(0) =~= rest);
                }
            },
        }
    }
}

/// Synchronisation does not depend on how the stream is cut into logical
/// frames: scanning `a` and then, if no frame was found, scanning what
/// remains followed by `b` skips the same bytes and finds the same frame as
/// scanning `a ++ b`; a frame found in `a` is found in `a ++ b` too, with
/// `b` left behind it.
pub proof fn lemma_scan_append(a: Seq<u8>, b: Seq<u8>)
    ensures
        ({
            let (b0, n, f) = sync_scan(a);
            &&& (f is Some ==> sync_scan(a + b) == (b0 + b, n, f))
            &&& (f is None ==> {
                let (b1, m, g) = sync_scan(b0 + b);
                sync_scan(a + b) == (b1, n + m, g)
            })
        }),
    decreases a.len(),
{
    let ab = a + b;
    match spec_find_sync(a) {
        None => {
            let keep: int = if a.len() > 0 && a.last() == 0xFFu8 { 1 } else { 0 };
            let pre = a.take(a.len() - keep);
            let b0 = a.skip(a.len() - keep);
            assert(ab =~= pre + (b0 + b));
            assert forall|i: int| 0 <= i < pre.len() implies !is_sync(pre + (b0 + b), i) by {
                if i + 1 < a.len() {
                    lemma_first_sync_none(a, 0, i);
                    assert(ab[i] == a[i] && ab[i + 1] == a[i + 1]);
                } else {
                    assert(ab[i] == a[i]);
                }
            }
            if keep == 0 && a.len() > 0 {
                assert(pre =~= a);
            }
            lemma_scan_prefix(pre, b0 + b);
        },
        Some(i) => {
            lemma_first_sync_is_sync(a, 0);
            assert(ab[i] == a[i] && ab[i + 1] == a[i + 1]);
            if i > 0 {
                let pre = a.take(i);
                let rest = a.skip(i);
                assert(ab =~= pre + (rest + b));
                assert forall|k: int| 0 <= k < pre.len() implies !is_sync(pre + (rest + b), k) by {
                    lemma_first_sync_before(a, 0, k);
                    assert(ab[k] == a[k] && ab[k + 1] == a[k + 1]);
                }
                lemma_scan_prefix(pre, rest + b);
                lemma_scan_append(rest, b);
                let (c0, cn, cf) = sync_scan(rest);
                if cf is None {
                    let (b1, m, g) = sync_scan(c0 + b);
                    assert(sync_scan(a + b) == (b1, (cn + m + i) as nat, g));
                } else {
                    assert(sync_scan(a + b) == (c0 + b, (cn + i) as nat, cf));
                }
            } else {
                assert(is_sync(ab, 0));
                assert(spec_find_sync(ab) == Some(0int));
                if a.len() < 4 {
                } else {
                    assert(ab.take(4) =~= a.take(4));
                    let header = spec_parse_header(a.take(4));
                    match spec_frame_step(header, a.len()) {
                        SyncStep::SkipByte => {
                            assert(ab.skip(1) =~= a.skip(1) + b);
                            lemma_scan_append(a.skip(1), b);
                        },
                        SyncStep::Wait => {},
                        SyncStep::Frame(_) => {},
                    }
                }
            }
        },
    }
}

/// Mono input is duplicated to both output channels without change.
pub proof fn lemma_mono_duplicated(m: int, f: int)
    requires
        m >= 0,
        f == 1 || f == 2,
    ensures
        stereo_source_index(2 * m, 1, f) == stereo_source_index(2 * m + 1, 1, f),
{
    assert((2 * m) / (2 * f) == (2 * m + 1) / (2 * f)) by (nonlinear_arith)
        requires
            m >= 0,
            f == 1 || f == 2,
    ;
}

/// At 24 kHz every stereo output frame is repeated once: output samples
/// `4m + k` and `4m + 2 + k` come from the same input sample.
pub proof fn lemma_half_rate_repeated(m: int, k: int, channels: int)
    requires
        m >= 0,
        0 <= k < 2,
    ensures
        stereo_source_index(4 * m + k, channels, 2) == stereo_source_index(4 * m + 2 + k, channels, 2),
{
    assert((4 * m + k) / 4 == m && (4 * m + 2 + k) / 4 == m && (4 * m + k) % 2 == k && (4 * m + 2 + k) % 2 == k)
        by (nonlinear_arith)
        requires
            m >= 0,
            0 <= k < 2,
    ;
}

} // verus!
