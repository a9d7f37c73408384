//! Properties of reading a Beast stream in pieces: what a buffer without an
//! escape byte yields, how byte-stuffing comes back out, and why carrying the
//! remainder into the next read gives the frames of the whole stream.
use vstd::prelude::*;
use crate::beast::{
    closed_frames, ends_in_lone_escape, ends_lone_from, escape_bytes, frame_error, frame_errors,
    is_frame_marker, open_frame, readable_frames, remainder_of, scan_from, ESCAPE,
};

verus! {

/// Frames closed before position `i` stay in front of those closed after it.
proof fn lemma_scan_keeps_closed(s: Seq<u8>, i: int, d: Seq<Seq<u8>>, c: Seq<u8>)
    ensures
        scan_from(s, i, d, c).0 == d + scan_from(s, i, Seq::empty(), c).0,
        scan_from(s, i, d, c).1 == scan_from(s, i, Seq::empty(), c).1,
    decreases s.len() - i,
{
    let e = Seq::<Seq<u8>>::empty();
    if i < 0 || i >= s.len() {
        assert(d + e =~= d);
    } else if s[i] == ESCAPE && i + 1 < s.len() && s[i + 1] == ESCAPE {
        lemma_scan_keeps_closed(s, i + 2, d, c.push(ESCAPE));
    } else if s[i] == ESCAPE && i + 1 == s.len() {
        assert(d + e =~= d);
    } else if s[i] == ESCAPE && is_frame_marker(s[i + 1]) {
        if c.len() > 0 {
            lemma_scan_keeps_closed(s, i + 1, d.push(c), Seq::empty());
            lemma_scan_keeps_closed(s, i + 1, e.push(c), Seq::empty());
            let x = scan_from(s, i + 1, e, Seq::empty()).0;
            assert(d.push(c) + x =~= d + (e.push(c) + x));
        } else {
            lemma_scan_keeps_closed(s, i + 1, d, Seq::empty());
        }
    } else {
        lemma_scan_keeps_closed(s, i + 1, d, c.push(s[i]));
    }
}

/// Reading past a prefix is reading the rest on its own.
proof fn lemma_scan_suffix(a: Seq<u8>, b: Seq<u8>, j: int, d: Seq<Seq<u8>>, c: Seq<u8>)
    requires
        j >= 0,
    ensures
        scan_from(a + b, a.len() + j, d, c) == scan_from(b, j, d, c),
        ends_lone_from(a + b, a.len() + j) == ends_lone_from(b, j),
    decreases b.len() - j,
{
    let s = a + b;
    let i = a.len() + j;
    if j < b.len() {
        assert(s[i] == b[j]);
        if j + 1 < b.len() {
            assert(s[i + 1] == b[j + 1]);
        }
        if b[j] == ESCAPE && j + 1 < b.len() && b[j + 1] == ESCAPE {
            lemma_scan_suffix(a, b, j + 2, d, c.push(ESCAPE));
        } else if b[j] == ESCAPE && j + 1 == b.len() {
        } else if b[j] == ESCAPE && is_frame_marker(b[j + 1]) {
            let d2 = if c.len() > 0 {
                d.push(c)
            } else {
                d
            };
            lemma_scan_suffix(a, b, j + 1, d2, Seq::empty());
        } else {
            lemma_scan_suffix(a, b, j + 1, d, c.push(b[j]));
        }
    }
}

/// Up to the end of a prefix that does not end in a lone escape byte,
/// reading a longer buffer goes as reading the prefix alone.
proof fn lemma_scan_prefix(a: Seq<u8>, b: Seq<u8>, i: int, d: Seq<Seq<u8>>, c: Seq<u8>)
    requires
        0 <= i <= a.len(),
        !ends_lone_from(a, i),
    ensures
        scan_from(a + b, i, d, c) == scan_from(
            a + b,
            a.len() as int,
            scan_from(a, i, d, c).0,
            scan_from(a, i, d, c).1,
        ),
        ends_lone_from(a + b, i) == ends_lone_from(a + b, a.len() as int),
    decreases a.len() - i,
{
    let s = a + b;
    if i < a.len() {
        assert(s[i] == a[i]);
        if i + 1 < a.len() {
            assert(s[i + 1] == a[i + 1]);
        }
        if a[i] == ESCAPE && i + 1 < a.len() && a[i + 1] == ESCAPE {
            lemma_scan_prefix(a, b, i + 2, d, c.push(ESCAPE));
        } else if a[i] == ESCAPE && is_frame_marker(a[i + 1]) {
            let d2 = if c.len() > 0 {
                d.push(c)
            } else {
                d
            };
            lemma_scan_prefix(a, b, i + 1, d2, Seq::empty());
        } else {
            lemma_scan_prefix(a, b, i + 1, d, c.push(a[i]));
        }
    }
}

/// Where a prefix ends in a lone escape byte, reading a longer buffer goes as
/// reading the prefix alone up to that byte; the prefix alone takes the byte
/// literally, as the last of its open frame.
proof fn lemma_scan_prefix_lone(a: Seq<u8>, b: Seq<u8>, i: int, d: Seq<Seq<u8>>, c: Seq<u8>)
    requires
        0 <= i < a.len(),
        ends_lone_from(a, i),
    ensures
        a.last() == ESCAPE,
        scan_from(a, i, d, c).1.len() > 0,
        scan_from(a, i, d, c).1.last() == ESCAPE,
        scan_from(a + b, i, d, c) == scan_from(
            a + b,
            a.len() - 1,
            scan_from(a, i, d, c).0,
            scan_from(a, i, d, c).1.drop_last(),
        ),
        ends_lone_from(a + b, i) == ends_lone_from(a + b, a.len() - 1),
    decreases a.len() - i,
{
    let s = a + b;
    assert(s[i] == a[i]);
    if i + 1 < a.len() {
        assert(s[i + 1] == a[i + 1]);
    }
    if a[i] == ESCAPE && i + 1 < a.len() && a[i + 1] == ESCAPE {
        assert(i + 2 < a.len()) by {
            if i + 2 >= a.len() {
                assert(!ends_lone_from(a, i + 2));
            }
        }
        lemma_scan_prefix_lone(a, b, i + 2, d, c.push(ESCAPE));
    } else if a[i] == ESCAPE && i + 1 == a.len() {
        assert(c.push(ESCAPE).drop_last() == c);
    } else if a[i] == ESCAPE && is_frame_marker(a[i + 1]) {
        let d2 = if c.len() > 0 {
            d.push(c)
        } else {
            d
        };
        lemma_scan_prefix_lone(a, b, i + 1, d2, Seq::empty());
    } else {
        assert(i + 1 < a.len()) by {
            if i + 1 >= a.len() {
                assert(!ends_lone_from(a, i + 1));
            }
        }
        lemma_scan_prefix_lone(a, b, i + 1, d, c.push(a[i]));
    }
}

/// Stuffed bytes read back as the bytes themselves, whatever follows them.
proof fn lemma_scan_stuffed(s: Seq<u8>, i: int, p: Seq<u8>, d: Seq<Seq<u8>>, c: Seq<u8>)
    requires
        0 <= i,
        i + escape_bytes(p).len() <= s.len(),
        s.subrange(i, i + escape_bytes(p).len()) == escape_bytes(p),
    ensures
        scan_from(s, i, d, c) == scan_from(s, i + escape_bytes(p).len(), d, c + p),
        ends_lone_from(s, i) == ends_lone_from(s, i + escape_bytes(p).len()),
    decreases p.len(),
{
    if p.len() == 0 {
        assert(c + p =~= c);
    } else {
        let q = p.drop_last();
        let x = p.last();
        let eq = escape_bytes(q);
        let j = i + eq.len();
        assert(s.subrange(i, j) =~= s.subrange(i, i + escape_bytes(p).len()).subrange(0, eq.len() as int));
        assert(escape_bytes(p).subrange(0, eq.len() as int) =~= eq);
        lemma_scan_stuffed(s, i, q, d, c);
        assert(s[j] == escape_bytes(p)[eq.len() as int]);
        assert(c + p =~= (c + q).push(x));
        if x == ESCAPE {
            assert(s[j + 1] == escape_bytes(p)[eq.len() as int + 1]);
        }
    }
}

proof fn lemma_escape_concat(x: Seq<u8>, y: Seq<u8>)
    ensures
        escape_bytes(x + y) == escape_bytes(x) + escape_bytes(y),
    decreases y.len(),
{
    if y.len() == 0 {
        assert(x + y =~= x);
        assert(escape_bytes(x) + escape_bytes(y) =~= escape_bytes(x));
    } else {
        lemma_escape_concat(x, y.drop_last());
        assert((x + y).drop_last() =~= x + y.drop_last());
        assert((x + y).last() == y.last());
        let t = if y.last() == ESCAPE {
            seq![ESCAPE, ESCAPE]
        } else {
            seq![y.last()]
        };
        assert(escape_bytes(x) + escape_bytes(y.drop_last()) + t =~= escape_bytes(x) + (escape_bytes(
            y.drop_last(),
        ) + t));
    }
}

proof fn lemma_escape_plain(p: Seq<u8>)
    requires
        forall|k: int| 0 <= k < p.len() ==> p[k] != ESCAPE,
    ensures
        escape_bytes(p) == p,
    decreases p.len(),
{
    if p.len() > 0 {
        lemma_escape_plain(p.drop_last());
        assert(p.drop_last().push(p.last()) =~= p);
    }
}

/// A stuffed frame, escape byte and marker first, reads back as the marker
/// and the original bytes, with every doubled escape byte single again.
proof fn lemma_read_stuffed_frame(marker: u8, body: Seq<u8>, rest: Seq<u8>)
    requires
        is_frame_marker(marker),
    ensures
        scan_from(seq![ESCAPE, marker] + escape_bytes(body) + rest, 0, Seq::empty(), Seq::empty())
            == scan_from(rest, 0, Seq::empty(), seq![marker] + body),
        ends_lone_from(seq![ESCAPE, marker] + escape_bytes(body) + rest, 0) == ends_lone_from(
            rest,
            0,
        ),
{
    let head = seq![ESCAPE, marker] + escape_bytes(body);
    let s = head + rest;
    let e = Seq::<Seq<u8>>::empty();
    assert(s[0] == ESCAPE && s[1] == marker);
    assert(scan_from(s, 0, e, Seq::empty()) == scan_from(s, 1, e, Seq::empty()));
    assert(scan_from(s, 1, e, Seq::empty()) == scan_from(s, 2, e, seq![marker]));
    assert(ends_lone_from(s, 0) == ends_lone_from(s, 1));
    assert(ends_lone_from(s, 1) == ends_lone_from(s, 2));
    assert(s.subrange(2, 2 + escape_bytes(body).len() as int) =~= escape_bytes(body));
    lemma_scan_stuffed(s, 2, body, e, seq![marker]);
    lemma_scan_suffix(head, rest, 0, e, seq![marker] + body);
}

/// A buffer without an escape byte closes no frame, so nothing is read and
/// no error comes; the whole buffer, behind one escape byte, is carried over
/// (nothing, for an empty buffer).
pub proof fn lemma_no_escape_reads_nothing(s: Seq<u8>)
    requires
        forall|k: int| 0 <= k < s.len() ==> s[k] != ESCAPE,
    ensures
        closed_frames(s).len() == 0,
        readable_frames(closed_frames(s)).len() == 0,
        frame_errors(closed_frames(s)).len() == 0,
        open_frame(s) == s,
        remainder_of(s) == if s.len() == 0 {
            Seq::empty()
        } else {
            seq![ESCAPE] + s
        },
{
    lemma_no_escape_scan(s, 0);
    assert(s.take(0) =~= Seq::<u8>::empty());
    lemma_escape_plain(s);
}

proof fn lemma_no_escape_scan(s: Seq<u8>, i: int)
    requires
        0 <= i <= s.len(),
        forall|k: int| 0 <= k < s.len() ==> s[k] != ESCAPE,
    ensures
        scan_from(s, i, Seq::empty(), s.take(i)) == (Seq::<Seq<u8>>::empty(), s),
        !ends_lone_from(s, i),
    decreases s.len() - i,
{
    if i < s.len() {
        assert(s.take(i).push(s[i]) =~= s.take(i + 1));
        lemma_no_escape_scan(s, i + 1);
    } else {
        assert(s.take(i) =~= s);
    }
}

/// Byte-stuffing comes back out: a frame written as the escape byte, its
/// marker and its bytes with every escape byte doubled reads back as the
/// marker and exactly the original bytes, whether it is still open or the
/// next frame's start closes it; still open, it is handed back whole as the
/// remainder.
pub proof fn lemma_stuffing_round_trip(marker: u8, body: Seq<u8>, next: u8)
    requires
        is_frame_marker(marker),
        is_frame_marker(next),
    ensures
        closed_frames(seq![ESCAPE, marker] + escape_bytes(body)).len() == 0,
        open_frame(seq![ESCAPE, marker] + escape_bytes(body)) == seq![marker] + body,
        closed_frames(seq![ESCAPE, marker] + escape_bytes(body) + seq![ESCAPE, next]) == seq![
            seq![marker] + body,
        ],
        open_frame(seq![ESCAPE, marker] + escape_bytes(body) + seq![ESCAPE, next]) == seq![next],
        remainder_of(seq![ESCAPE, marker] + escape_bytes(body)) == seq![ESCAPE, marker]
            + escape_bytes(body),
{
    let e = Seq::<Seq<u8>>::empty();
    let head = seq![ESCAPE, marker] + escape_bytes(body);
    lemma_read_stuffed_frame(marker, body, Seq::empty());
    assert(head + Seq::<u8>::empty() =~= head);
    lemma_escape_concat(seq![marker], body);
    lemma_escape_plain(seq![marker]);
    assert(seq![ESCAPE] + escape_bytes(seq![marker] + body) =~= head);
    lemma_read_stuffed_frame(marker, body, seq![ESCAPE, next]);
    let t = seq![ESCAPE, next];
    let m = seq![marker] + body;
    assert(scan_from(t, 0, e, m) == scan_from(t, 1, e.push(m), Seq::empty()));
    assert(scan_from(t, 1, e.push(m), Seq::empty()) == scan_from(t, 2, e.push(m), seq![next]));
}

/// Reading two lists of frames one after the other reads each in turn.
proof fn lemma_read_concat(x: Seq<Seq<u8>>, y: Seq<Seq<u8>>)
    ensures
        readable_frames(x + y) == readable_frames(x) + readable_frames(y),
        frame_errors(x + y) == frame_errors(x) + frame_errors(y),
    decreases y.len(),
{
    if y.len() == 0 {
        assert(x + y =~= x);
        assert(readable_frames(x) + readable_frames(y) =~= readable_frames(x));
        assert(frame_errors(x) + frame_errors(y) =~= frame_errors(x));
    } else {
        let z = y.drop_last();
        let f = y.last();
        lemma_read_concat(x, z);
        assert((x + y).drop_last() =~= x + z);
        assert((x + y).last() == f);
        assert(readable_frames(x) + readable_frames(z).push(f) =~= (readable_frames(x)
            + readable_frames(z)).push(f));
        if frame_error(f) is Some {
            let e = frame_error(f)->Some_0;
            assert(frame_errors(x) + frame_errors(z).push(e) =~= (frame_errors(x) + frame_errors(
                z,
            )).push(e));
        }
    }
}

/// Reading a stream in two pieces, with the remainder of the first put before
/// the second, gives what reading it whole gives: the frames the first piece
/// closes, then those the second read closes (and so the same frames read and
/// the same errors), and the same remainder at the end. The first piece must
/// end inside a frame that it opened. Read alone, that remainder closes
/// nothing and reopens the same frame.
pub proof fn lemma_remainder_streaming(a: Seq<u8>, b: Seq<u8>)
    requires
        open_frame(a).len() > 0,
        is_frame_marker(open_frame(a)[0]),
    ensures
        closed_frames(remainder_of(a)).len() == 0,
        open_frame(remainder_of(a)) == open_frame(a),
        closed_frames(a + b) == closed_frames(a) + closed_frames(remainder_of(a) + b),
        open_frame(a + b) == open_frame(remainder_of(a) + b),
        remainder_of(a + b) == remainder_of(remainder_of(a) + b),
        readable_frames(closed_frames(a + b)) == readable_frames(closed_frames(a))
            + readable_frames(closed_frames(remainder_of(a) + b)),
        frame_errors(closed_frames(a + b)) == frame_errors(closed_frames(a)) + frame_errors(
            closed_frames(remainder_of(a) + b),
        ),
{
    let e = Seq::<Seq<u8>>::empty();
    let m = open_frame(a);
    let f = closed_frames(a);
    let carry = remainder_of(a);
    let m0 = m[0];
    if ends_in_lone_escape(a) {
        // The lone escape byte at the end of `a` stays single, and both reads
        // meet it, then `b`, in the same state.
        lemma_scan_prefix_lone(a, b, 0, e, Seq::empty());
        let m1 = m.drop_last();
        assert(m1.len() > 0) by {
            assert(m0 != ESCAPE);
        }
        let body = m1.subrange(1, m1.len() as int);
        let tail = seq![ESCAPE] + b;
        assert(a + b =~= a.drop_last() + tail);
        lemma_scan_suffix(a.drop_last(), tail, 0, f, m1);
        assert(m1 =~= seq![m0] + body);
        lemma_escape_concat(seq![m0], body);
        lemma_escape_plain(seq![m0]);
        let head = seq![ESCAPE, m0] + escape_bytes(body);
        assert(carry =~= head + seq![ESCAPE]);
        assert(carry + b =~= head + tail);
        lemma_read_stuffed_frame(m0, body, tail);
        lemma_read_stuffed_frame(m0, body, seq![ESCAPE]);
        assert(m1.push(ESCAPE) =~= m);
        lemma_scan_keeps_closed(tail, 0, f, m1);
        lemma_read_concat(f, closed_frames(carry + b));
    } else {
        // The remainder is the open frame stuffed, behind an escape byte.
        let body = m.subrange(1, m.len() as int);
        assert(m =~= seq![m0] + body);
        lemma_escape_concat(seq![m0], body);
        lemma_escape_plain(seq![m0]);
        assert(carry =~= seq![ESCAPE, m0] + escape_bytes(body));
        // Read alone, the remainder reopens the same frame.
        lemma_read_stuffed_frame(m0, body, Seq::empty());
        assert(carry + Seq::<u8>::empty() =~= carry);
        // Read with the next piece, it reaches the piece in the same state as
        // the whole stream does.
        lemma_read_stuffed_frame(m0, body, b);
        lemma_scan_keeps_closed(b, 0, f, m);
        lemma_scan_prefix(a, b, 0, e, Seq::empty());
        lemma_scan_suffix(a, b, 0, f, m);
        lemma_read_concat(f, closed_frames(carry + b));
    }
}

} // verus!
