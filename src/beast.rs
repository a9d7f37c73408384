//! The Beast binary wire format: byte-stuffed frames, each opened by the
//! escape byte and a type marker, carrying a 48-bit timestamp, a signal level
//! and a Mode-A/C or Mode-S payload.
use vstd::prelude::*;
use vstd::string::StringExecFns;
use crate::adsb::{adsb_accepts, adsb_decode};
use vstd::string::to_string_from_display_ensures;
use crate::text::{decimal_of, hex_of, push_decimal, push_hex};

verus! {

/// The escape byte: doubled it stands for itself, followed by a type marker
/// it opens a frame.
pub const ESCAPE: u8 = 0x1A;

/// Type marker of a Mode-A/C frame.
pub const MODE_AC_MARKER: u8 = 0x31;

/// Type marker of a short (7-byte) Mode-S frame.
pub const MODE_S_SHORT_MARKER: u8 = 0x32;

/// Type marker of a long (14-byte) Mode-S frame.
pub const MODE_S_LONG_MARKER: u8 = 0x33;

/// One of the three type markers.
pub open spec fn is_frame_marker(b: u8) -> bool {
    b == MODE_AC_MARKER || b == MODE_S_SHORT_MARKER || b == MODE_S_LONG_MARKER
}

/// Reading `s` from position `i`, with the frames `done` already closed and
/// `cur` being gathered: the closed frames and the one still open at the end.
/// A doubled escape is one literal escape byte; an escape before a type marker
/// closes the open frame (if it holds anything) and starts a new one; an
/// escape as the last byte is taken literally; every other byte is data.
pub open spec fn scan_from(s: Seq<u8>, i: int, done: Seq<Seq<u8>>, cur: Seq<u8>) -> (
    Seq<Seq<u8>>,
    Seq<u8>,
)
    decreases s.len() - i,
{
    if i < 0 || i >= s.len() {
        (done, cur)
    } else if s[i] == ESCAPE && i + 1 < s.len() && s[i + 1] == ESCAPE {
        scan_from(s, i + 2, done, cur.push(ESCAPE))
    } else if s[i] == ESCAPE && i + 1 == s.len() {
        (done, cur.push(ESCAPE))
    } else if s[i] == ESCAPE && is_frame_marker(s[i + 1]) {
        let done2 = if cur.len() > 0 {
            done.push(cur)
        } else {
            done
        };
        scan_from(s, i + 1, done2, Seq::empty())
    } else {
        scan_from(s, i + 1, done, cur.push(s[i]))
    }
}

/// The frames that a buffer closes, unstuffed, each starting with its type
/// marker (the first may hold whatever came before the first marker).
pub open spec fn closed_frames(s: Seq<u8>) -> Seq<Seq<u8>> {
    scan_from(s, 0, Seq::empty(), Seq::empty()).0
}

/// The unstuffed bytes of the frame still open at the end of a buffer.
pub open spec fn open_frame(s: Seq<u8>) -> Seq<u8> {
    scan_from(s, 0, Seq::empty(), Seq::empty()).1
}

/// Byte-stuffing: every escape byte doubled.
pub open spec fn escape_bytes(s: Seq<u8>) -> Seq<u8>
    decreases s.len(),
{
    if s.len() == 0 {
        Seq::empty()
    } else {
        escape_bytes(s.drop_last()) + if s.last() == ESCAPE {
            seq![ESCAPE, ESCAPE]
        } else {
            seq![s.last()]
        }
    }
}

/// Reading `s` from position `i` stops on a lone escape byte: the buffer's
/// last byte is an escape that no following byte has paired yet.
pub open spec fn ends_lone_from(s: Seq<u8>, i: int) -> bool
    decreases s.len() - i,
{
    if i < 0 || i >= s.len() {
        false
    } else if s[i] == ESCAPE && i + 1 < s.len() && s[i + 1] == ESCAPE {
        ends_lone_from(s, i + 2)
    } else if s[i] == ESCAPE && i + 1 == s.len() {
        true
    } else {
        ends_lone_from(s, i + 1)
    }
}

/// The buffer ends in an escape byte that is still waiting for its partner.
pub open spec fn ends_in_lone_escape(s: Seq<u8>) -> bool {
    ends_lone_from(s, 0)
}

/// What to keep of an open frame for the next read: an escape byte, then the
/// frame stuffed again. Where the buffer ended in a lone escape byte (taken
/// literally for now, as the open frame's last byte) that byte stays single,
/// so that it pairs with whatever the next read starts with. Nothing for no
/// frame.
pub open spec fn carry_over(pending: Seq<u8>, lone_escape: bool) -> Seq<u8> {
    if pending.len() == 0 {
        Seq::empty()
    } else if lone_escape {
        seq![ESCAPE] + escape_bytes(pending.drop_last()) + seq![ESCAPE]
    } else {
        seq![ESCAPE] + escape_bytes(pending)
    }
}

/// The bytes that reading `s` hands back to go before the next buffer.
pub open spec fn remainder_of(s: Seq<u8>) -> Seq<u8> {
    carry_over(open_frame(s), ends_in_lone_escape(s))
}

/// Why a frame cannot be read.
#[derive(Debug, Clone, Copy, PartialEq, Eq, Structural)]
pub enum FrameError {
    /// There were no bytes to read a frame from.
    Empty,
    /// The frame does not start with a known type marker.
    UnknownType(u8),
    /// The frame's length (type marker included) is not the one its type needs.
    BadLength { kind: u8, len: usize },
}

/// The length, type marker included, of a frame of a known type: marker, six
/// timestamp bytes, the signal byte, and a 2-, 7- or 14-byte payload.
pub open spec fn frame_len(kind: u8) -> nat {
    if kind == MODE_AC_MARKER {
        10
    } else if kind == MODE_S_SHORT_MARKER {
        15
    } else {
        22
    }
}

/// Why an unstuffed frame cannot be read, if it cannot.
pub open spec fn frame_error(seg: Seq<u8>) -> Option<FrameError> {
    if seg.len() == 0 {
        Some(FrameError::Empty)
    } else if !is_frame_marker(seg[0]) {
        Some(FrameError::UnknownType(seg[0]))
    } else if seg.len() != frame_len(seg[0]) {
        Some(FrameError::BadLength { kind: seg[0], len: seg.len() as usize })
    } else {
        None
    }
}

/// The six timestamp bytes after the marker, as a big-endian number.
pub open spec fn timestamp_of(seg: Seq<u8>) -> int {
    seg[1] * 0x100_0000_0000 + seg[2] * 0x1_0000_0000 + seg[3] * 0x100_0000 + seg[4] * 0x1_0000
        + seg[5] * 0x100 + seg[6]
}

/// One frame read off the wire.
#[derive(Debug, Clone)]
pub struct BeastFrame {
    /// The type marker.
    pub message_type: u8,
    /// Receiver clock ticks, 48 bits.
    pub timestamp: u64,
    /// Signal level.
    pub signal: u8,
    /// The Mode-A/C or Mode-S bytes.
    pub payload: Vec<u8>,
    /// What adsb_deku makes of the payload, where it can.
    pub data: Option<adsb_deku::Frame>,
    /// The frame in uppercase hex, escape byte first, unstuffed.
    pub hex: String,
}

/// `f` is what the unstuffed, well-formed frame `seg` holds.
pub open spec fn frame_read_from(f: BeastFrame, seg: Seq<u8>) -> bool {
    &&& f.message_type == seg[0]
    &&& f.timestamp == timestamp_of(seg)
    &&& f.signal == seg[7]
    &&& f.payload@ == seg.subrange(8, seg.len() as int)
    &&& f.data is Some == adsb_accepts(f.payload@)
    &&& f.hex@ == hex_of(seq![ESCAPE] + seg, true)
}

/// Reads one unstuffed frame.
fn parse_frame(seg: &Vec<u8>) -> (r: Result<BeastFrame, FrameError>)
    ensures
        match frame_error(seg@) {
            Some(e) => r == Err::<BeastFrame, FrameError>(e),
            None => r is Ok && frame_read_from(r->Ok_0, seg@),
        },
{
    if seg.len() == 0 {
        return Err(FrameError::Empty);
    }
    let kind = seg[0];
    let expected: usize = if kind == MODE_AC_MARKER {
        10
    } else if kind == MODE_S_SHORT_MARKER {
        15
    } else if kind == MODE_S_LONG_MARKER {
        22
    } else {
        return Err(FrameError::UnknownType(kind));
    };
    if seg.len() != expected {
        return Err(FrameError::BadLength { kind, len: seg.len() });
    }
    let timestamp: u64 = (seg[1] as u64) * 0x100_0000_0000 + (seg[2] as u64) * 0x1_0000_0000
        + (seg[3] as u64) * 0x100_0000 + (seg[4] as u64) * 0x1_0000 + (seg[5] as u64) * 0x100
        + (seg[6] as u64);
    let payload = slice_to_vec(seg.as_slice(), 8, expected);
    let data = adsb_decode(payload.as_slice());
    let mut hex = String::new();
    let lead: Vec<u8> = vec![ESCAPE];
    push_hex(&mut hex, lead.as_slice(), true);
    push_hex(&mut hex, seg.as_slice(), true);
    proof {
        assert(lead@ == seq![ESCAPE]);
        lemma_hex_concat(seq![ESCAPE], seg@, true);
        assert(hex@ =~= hex_of(seq![ESCAPE] + seg@, true));
    }
    Ok(BeastFrame { message_type: kind, timestamp, signal: seg[7], payload, data, hex })
}

/// A copy of `s[lo..hi]`.
fn slice_to_vec(s: &[u8], lo: usize, hi: usize) -> (r: Vec<u8>)
    requires
        lo <= hi <= s@.len(),
    ensures
        r@ == s@.subrange(lo as int, hi as int),
{
    let mut r: Vec<u8> = Vec::new();
    let mut i = lo;
    while i < hi
        invariant
            lo <= i <= hi,
            hi <= s@.len(),
            r@ == s@.subrange(lo as int, i as int),
        decreases hi - i,
    {
        r.push(s[i]);
        i += 1;
    }
    r
}

proof fn lemma_hex_concat(a: Seq<u8>, b: Seq<u8>, upper: bool)
    ensures
        hex_of(a + b, upper) == hex_of(a, upper) + hex_of(b, upper),
    decreases b.len(),
{
    if b.len() == 0 {
        assert(a + b == a);
    } else {
        lemma_hex_concat(a, b.drop_last(), upper);
        assert((a + b).drop_last() == a + b.drop_last());
    }
}

/// Reads the last frame that a buffer opens; frames that it closes before
/// are passed over, and any error in the last one is returned.
pub fn read_single_frame(buffer: Vec<u8>) -> (r: Result<BeastFrame, FrameError>)
    ensures
        match frame_error(open_frame(buffer@)) {
            Some(e) => r == Err::<BeastFrame, FrameError>(e),
            None => r is Ok && frame_read_from(r->Ok_0, open_frame(buffer@)),
        },
{
    let n = buffer.len();
    let mut msg: Vec<u8> = Vec::new();
    let ghost mut done: Seq<Seq<u8>> = Seq::empty();
    let mut i: usize = 0;
    while i < n
        invariant
            n == buffer@.len(),
            i <= n,
            scan_from(buffer@, i as int, done, msg@) == scan_from(
                buffer@,
                0,
                Seq::empty(),
                Seq::empty(),
            ),
        decreases n - i,
    {
        let byte = buffer[i];
        if byte == ESCAPE && i + 1 < n && buffer[i + 1] == ESCAPE {
            msg.push(ESCAPE);
            i += 2;
        } else if byte == ESCAPE && i + 1 == n {
            msg.push(ESCAPE);
            i += 1;
        } else if byte == ESCAPE && is_marker(buffer[i + 1]) {
            proof {
                if msg@.len() > 0 {
                    done = done.push(msg@);
                }
            }
            msg = Vec::new();
            i += 1;
        } else {
            msg.push(byte);
            i += 1;
        }
    }
    parse_frame(&msg)
}

fn is_marker(b: u8) -> (r: bool)
    ensures
        r == is_frame_marker(b),
{
    b == MODE_AC_MARKER || b == MODE_S_SHORT_MARKER || b == MODE_S_LONG_MARKER
}

/// The closed frames that read cleanly, in order.
pub open spec fn readable_frames(segs: Seq<Seq<u8>>) -> Seq<Seq<u8>>
    decreases segs.len(),
{
    if segs.len() == 0 {
        Seq::empty()
    } else if frame_error(segs.last()) is None {
        readable_frames(segs.drop_last()).push(segs.last())
    } else {
        readable_frames(segs.drop_last())
    }
}

/// The errors of the closed frames that do not read cleanly, in order.
pub open spec fn frame_errors(segs: Seq<Seq<u8>>) -> Seq<FrameError>
    decreases segs.len(),
{
    if segs.len() == 0 {
        Seq::empty()
    } else if frame_error(segs.last()) is Some {
        frame_errors(segs.drop_last()).push(frame_error(segs.last())->Some_0)
    } else {
        frame_errors(segs.drop_last())
    }
}

/// Frames read off the wire, in order.
pub struct Frames {
    pub frames: Vec<BeastFrame>,
}

impl Default for Frames {
    fn default() -> (r: Frames)
        ensures
            r.frames@.len() == 0,
    {
        Frames { frames: Vec::new() }
    }
}

/// `frames` holds, in order, what the unstuffed frames `segs` hold.
pub open spec fn frames_read_from(frames: Seq<BeastFrame>, segs: Seq<Seq<u8>>) -> bool {
    &&& frames.len() == segs.len()
    &&& forall|k: int| 0 <= k < segs.len() ==> frame_read_from(#[trigger] frames[k], segs[k])
}

/// The outcome of reading a buffer: the frames it closes that read cleanly,
/// the errors of those that do not, and the bytes to put before the next
/// buffer.
pub struct BeastRead {
    pub frames: Frames,
    pub errors: Vec<FrameError>,
    pub remainder: Vec<u8>,
}

/// Reads every frame that a buffer closes. A frame that does not read is
/// passed over and its error kept; the frame still open at the end is handed
/// back as the remainder, to go before the next buffer.
pub fn read_beast_buffer(buffer: Vec<u8>) -> (r: BeastRead)
    ensures
        frames_read_from(r.frames.frames@, readable_frames(closed_frames(buffer@))),
        r.errors@ == frame_errors(closed_frames(buffer@)),
        r.remainder@ == remainder_of(buffer@),
{
    let n = buffer.len();
    let mut msg: Vec<u8> = Vec::new();
    let mut frames: Vec<BeastFrame> = Vec::new();
    let mut errors: Vec<FrameError> = Vec::new();
    let ghost mut done: Seq<Seq<u8>> = Seq::empty();
    let mut lone_escape = false;
    let mut i: usize = 0;
    while i < n
        invariant
            n == buffer@.len(),
            i <= n,
            scan_from(buffer@, i as int, done, msg@) == scan_from(
                buffer@,
                0,
                Seq::empty(),
                Seq::empty(),
            ),
            (lone_escape || ends_lone_from(buffer@, i as int)) == ends_in_lone_escape(buffer@),
            lone_escape ==> i == n && msg@.len() > 0 && msg@.last() == ESCAPE,
            frames_read_from(frames@, readable_frames(done)),
            errors@ == frame_errors(done),
        decreases n - i,
    {
        let byte = buffer[i];
        if byte == ESCAPE && i + 1 < n && buffer[i + 1] == ESCAPE {
            msg.push(ESCAPE);
            i += 2;
        } else if byte == ESCAPE && i + 1 == n {
            msg.push(ESCAPE);
            lone_escape = true;
            i += 1;
        } else if byte == ESCAPE && is_marker(buffer[i + 1]) {
            if msg.len() > 0 {
                let ghost before = done;
                match parse_frame(&msg) {
                    Ok(frame) => frames.push(frame),
                    Err(e) => errors.push(e),
                }
                proof {
                    done = done.push(msg@);
                    assert(done.drop_last() == before);
                    assert(done.last() == msg@);
                }
            }
            msg = Vec::new();
            i += 1;
        } else {
            msg.push(byte);
            i += 1;
        }
    }
    let remainder = carry_over_bytes(&msg, lone_escape);
    BeastRead { frames: Frames { frames }, errors, remainder }
}

/// The bytes to keep of an open frame for the next read.
fn carry_over_bytes(msg: &Vec<u8>, lone_escape: bool) -> (r: Vec<u8>)
    requires
        lone_escape ==> msg@.len() > 0,
    ensures
        r@ == carry_over(msg@, lone_escape),
{
    let mut r: Vec<u8> = Vec::new();
    if msg.len() == 0 {
        return r;
    }
    r.push(ESCAPE);
    let stuffed: usize = if lone_escape {
        msg.len() - 1
    } else {
        msg.len()
    };
    let mut i: usize = 0;
    while i < stuffed
        invariant
            stuffed <= msg@.len(),
            i <= stuffed,
            r@ == seq![ESCAPE] + escape_bytes(msg@.take(i as int)),
        decreases stuffed - i,
    {
        let m = msg[i];
        r.push(m);
        if m == ESCAPE {
            r.push(m);
        }
        proof {
            assert(msg@.take(i + 1).drop_last() == msg@.take(i as int));
        }
        i += 1;
    }
    if lone_escape {
        r.push(ESCAPE);
        assert(msg@.take(i as int) == msg@.drop_last());
    } else {
        assert(msg@.take(i as int) == msg@);
    }
    r
}

/// The lines that describe one frame, up to where its decoded contents go.
pub open spec fn frame_header(f: BeastFrame) -> Seq<char> {
    " Message Type: "@ + hex_of(seq![f.message_type], true) + ",\n Timestamp: "@ + decimal_of(
        f.timestamp as nat,
    ) + ",\n Signal: "@ + hex_of(seq![f.signal], true) + ",\n Data: \n ---\n"@
}

/// The frames described one after another, a line break between two, each
/// followed by the text of its decoded contents.
pub open spec fn frames_body(frames: Seq<BeastFrame>, texts: Seq<String>) -> Seq<char>
    decreases frames.len(),
{
    if frames.len() == 0 {
        Seq::empty()
    } else {
        let sep = if frames.len() == 1 {
            Seq::empty()
        } else {
            "\n"@
        };
        frames_body(frames.drop_last(), texts.drop_last()) + sep + frame_header(frames.last())
            + texts.last()@
    }
}

/// `text` is what a frame's decoded contents render as: what adsb_deku's
/// `Display` writes, or nothing where the payload did not decode.
pub open spec fn contents_text(data: Option<adsb_deku::Frame>, text: String) -> bool {
    match data {
        Some(d) => to_string_from_display_ensures::<adsb_deku::Frame>(&d, text),
        None => text@.len() == 0,
    }
}

impl Frames {
    /// A description of the frames, for diagnostics. The text of a frame's
    /// decoded contents is what adsb_deku's `Display` writes for it, and empty
    /// where it could not decode the payload.
    pub fn to_string(&self) -> (r: String)
        ensures
            exists|texts: Seq<String>|
                {
                    &&& texts.len() == self.frames@.len()
                    &&& forall|k: int|
                        0 <= k < texts.len() ==> contents_text(
                            (#[trigger] self.frames@[k]).data,
                            texts[k],
                        )
                    &&& r@ == "Frames:\n"@ + frames_body(self.frames@, texts)
                },
    {
        let mut out = String::from_str("Frames:\n");
        let ghost mut texts: Seq<String> = Seq::empty();
        let mut i: usize = 0;
        while i < self.frames.len()
            invariant
                i <= self.frames@.len(),
                texts.len() == i,
                forall|k: int|
                    0 <= k < i ==> contents_text((#[trigger] self.frames@[k]).data, texts[k]),
                out@ == "Frames:\n"@ + frames_body(self.frames@.take(i as int), texts),
            decreases self.frames@.len() - i,
        {
            let ghost before = out@;
            let f = &self.frames[i];
            if i > 0 {
                out.append("\n");
            }
            out.append(" Message Type: ");
            let kind: Vec<u8> = vec![f.message_type];
            push_hex(&mut out, kind.as_slice(), true);
            out.append(",\n Timestamp: ");
            push_decimal(&mut out, f.timestamp);
            out.append(",\n Signal: ");
            let signal: Vec<u8> = vec![f.signal];
            push_hex(&mut out, signal.as_slice(), true);
            out.append(",\n Data: \n ---\n");
            let text = match &f.data {
                Some(d) => d.to_string(),
                None => String::new(),
            };
            assert(contents_text(f.data, text));
            out.append(text.as_str());
            proof {
                let sep = if i == 0 {
                    Seq::empty()
                } else {
                    "\n"@
                };
                assert(kind@ == seq![f.message_type]);
                assert(signal@ == seq![f.signal]);
                assert(self.frames@.take(i + 1).drop_last() == self.frames@.take(i as int));
                assert(texts.push(text).drop_last() == texts);
                assert(out@ =~= before + sep + frame_header(*f) + text@);
                let grown = texts.push(text);
                assert forall|k: int| 0 <= k < i + 1 implies contents_text(
                    (#[trigger] self.frames@[k]).data,
                    grown[k],
                ) by {
                    if k < i {
                        assert(grown[k] == texts[k]);
                    }
                }
                texts = grown;
            }
            i += 1;
        }
        assert(self.frames@.take(i as int) == self.frames@);
        out
    }
}

} // verus!
