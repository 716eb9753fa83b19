//! Where one record ends and the next begins.
//!
//! The log and the wire are streams of JSON objects written back to back,
//! with no length prefix. An object ends at the brace that closes it; braces
//! inside string literals do not count. White space may stand between
//! objects.

use vstd::prelude::*;

verus! {

/// The four bytes JSON allows between values.
pub open spec fn is_space(b: u8) -> bool {
    b == 0x20 || b == 0x0a || b == 0x0d || b == 0x09
}

/// The first position from `i` on that holds no white space; the length of
/// `bytes` if there is none.
pub open spec fn skip_spaces(bytes: Seq<u8>, i: int) -> int
    decreases bytes.len() - i,
{
    if 0 <= i < bytes.len() && is_space(bytes[i]) {
        skip_spaces(bytes, i + 1)
    } else {
        i
    }
}

/// What a scan inside an object remembers: how many braces are open, and
/// whether it stands inside a string literal, right after a backslash.
pub struct Scan {
    pub depth: nat,
    pub in_string: bool,
    pub escaped: bool,
}

/// The scan right after the brace that opens an object.
pub open spec fn scan_start() -> Scan {
    Scan { depth: 1, in_string: false, escaped: false }
}

/// The scan after one more byte.
pub open spec fn scan_step(s: Scan, b: u8) -> Scan {
    if s.in_string {
        if s.escaped {
            Scan { escaped: false, ..s }
        } else if b == 0x5c {
            Scan { escaped: true, ..s }
        } else if b == 0x22 {
            Scan { in_string: false, ..s }
        } else {
            s
        }
    } else if b == 0x22 {
        Scan { in_string: true, ..s }
    } else if b == 0x7b {
        Scan { depth: s.depth + 1, ..s }
    } else if b == 0x7d {
        Scan { depth: (s.depth - 1) as nat, ..s }
    } else {
        s
    }
}

/// The position right after the brace that closes the object in which a
/// scan in state `s` stands at position `i`; `None` if `bytes` ends first.
pub open spec fn object_end(bytes: Seq<u8>, i: int, s: Scan) -> Option<int>
    decreases bytes.len() - i,
{
    if 0 <= i < bytes.len() {
        let next = scan_step(s, bytes[i]);
        if next.depth == 0 {
            Some(i + 1)
        } else {
            object_end(bytes, i + 1, next)
        }
    } else {
        None
    }
}

/// What stands in a stream of objects from some position on.
#[derive(Clone, Copy, Debug, PartialEq, Eq, Structural)]
pub enum Frame {
    /// Nothing but white space up to the end.
    End,
    /// An object from `start` up to, not including, `end`.
    Object { start: usize, end: usize },
    /// An object that `bytes` ends in the middle of.
    Cut,
    /// Something that is not an object.
    Broken,
}

/// The frame that stands in `bytes` from position `from` on.
pub open spec fn frame_at(bytes: Seq<u8>, from: int) -> Frame {
    let start = skip_spaces(bytes, from);
    if start >= bytes.len() {
        Frame::End
    } else if bytes[start] != 0x7b {
        Frame::Broken
    } else {
        match object_end(bytes, start + 1, scan_start()) {
            Some(end) => Frame::Object { start: start as usize, end: end as usize },
            None => Frame::Cut,
        }
    }
}

/// `bytes` is white space followed by one object that ends where `bytes`
/// ends.
pub open spec fn is_single_frame(bytes: Seq<u8>) -> bool {
    frame_at(bytes, 0) matches Frame::Object { end, .. } && end == bytes.len()
}

/// `skip_spaces` stops at the first byte that is not white space.
pub proof fn lemma_skip_spaces(bytes: Seq<u8>, i: int)
    requires
        0 <= i <= bytes.len(),
    ensures
        i <= skip_spaces(bytes, i) <= bytes.len(),
        forall|j: int| i <= j < skip_spaces(bytes, i) ==> is_space(#[trigger] bytes[j]),
        skip_spaces(bytes, i) < bytes.len() ==> !is_space(bytes[skip_spaces(bytes, i)]),
    decreases bytes.len() - i,
{
    if i < bytes.len() && is_space(bytes[i]) {
        lemma_skip_spaces(bytes, i + 1);
    }
}

/// A run of white space that ends at `n` is what `skip_spaces` skips.
pub proof fn lemma_skip_spaces_is(bytes: Seq<u8>, i: int, n: int)
    requires
        0 <= i <= n <= bytes.len(),
        forall|j: int| i <= j < n ==> is_space(#[trigger] bytes[j]),
        n < bytes.len() ==> !is_space(bytes[n]),
    ensures
        skip_spaces(bytes, i) == n,
    decreases n - i,
{
    if i < n {
        lemma_skip_spaces_is(bytes, i + 1, n);
    }
}

/// An object's end lies after the scan's position and within the bytes.
pub proof fn lemma_object_end_bounds(bytes: Seq<u8>, i: int, s: Scan)
    requires
        object_end(bytes, i, s) is Some,
    ensures
        0 <= i < object_end(bytes, i, s).unwrap() <= bytes.len(),
    decreases bytes.len() - i,
{
    if 0 <= i < bytes.len() {
        let next = scan_step(s, bytes[i]);
        if next.depth != 0 {
            lemma_object_end_bounds(bytes, i + 1, next);
        }
    }
}

/// `c` holds at position `j + shift` the byte that `a` holds at `j`.
pub open spec fn same_byte(a: Seq<u8>, j: int, c: Seq<u8>, shift: int) -> bool {
    &&& 0 <= j < a.len()
    &&& 0 <= j + shift < c.len()
    &&& c[j + shift] == a[j]
}

/// `c` holds, `shift` positions further on, the bytes of `a` from `i` up
/// to, not including, `end`.
pub open spec fn same_window(a: Seq<u8>, i: int, end: int, c: Seq<u8>, shift: int) -> bool {
    forall|j: int| i <= j < end ==> #[trigger] same_byte(a, j, c, shift)
}

/// Where an object ends depends on its own bytes alone: in any other
/// sequence that holds the same bytes, `shift` positions further on, the
/// object ends `shift` positions further on.
pub proof fn lemma_object_end_window(a: Seq<u8>, i: int, s: Scan, c: Seq<u8>, shift: int)
    requires
        object_end(a, i, s) is Some,
        same_window(a, i, object_end(a, i, s).unwrap(), c, shift),
    ensures
        object_end(c, i + shift, s) == Some(object_end(a, i, s).unwrap() + shift),
    decreases a.len() - i,
{
    lemma_object_end_bounds(a, i, s);
    let next = scan_step(s, a[i]);
    let end = object_end(a, i, s).unwrap();
    assert(same_byte(a, i, c, shift));
    if next.depth != 0 {
        assert(object_end(a, i + 1, next) == Some(end));
        lemma_object_end_window(a, i + 1, next, c, shift);
    }
}

/// The frame found in a stream is a single frame when cut out of it.
pub proof fn lemma_frame_cut(bytes: Seq<u8>, from: int)
    requires
        0 <= from <= bytes.len() <= usize::MAX,
        frame_at(bytes, from) is Object,
    ensures
        from <= frame_at(bytes, from)->start < frame_at(bytes, from)->end <= bytes.len(),
        frame_at(bytes, from)->start == skip_spaces(bytes, from),
        is_single_frame(bytes.subrange(from, frame_at(bytes, from)->end as int)),
        skip_spaces(bytes.subrange(from, frame_at(bytes, from)->end as int), 0) == frame_at(
            bytes,
            from,
        )->start - from,
        is_single_frame(
            bytes.subrange(
                frame_at(bytes, from)->start as int,
                frame_at(bytes, from)->end as int,
            ),
        ),
{
    let start = skip_spaces(bytes, from);
    lemma_skip_spaces(bytes, from);
    lemma_object_end_bounds(bytes, start + 1, scan_start());
    let end = object_end(bytes, start + 1, scan_start()).unwrap();
    let cut = bytes.subrange(from, end);
    lemma_skip_spaces_is(cut, 0, start - from);
    assert forall|j: int| start + 1 <= j < end implies #[trigger] same_byte(
        bytes,
        j,
        cut,
        -from,
    ) by {}
    lemma_object_end_window(bytes, start + 1, scan_start(), cut, -from);
    let tight = bytes.subrange(start, end);
    lemma_skip_spaces_is(tight, 0, 0);
    assert forall|j: int| start + 1 <= j < end implies #[trigger] same_byte(
        bytes,
        j,
        tight,
        -start,
    ) by {}
    lemma_object_end_window(bytes, start + 1, scan_start(), tight, -start);
}

/// More bytes after a frame do not change it.
pub proof fn lemma_frame_extend(bytes: Seq<u8>, from: int, more: Seq<u8>)
    requires
        0 <= from <= bytes.len(),
        bytes.len() + more.len() <= usize::MAX,
        frame_at(bytes, from) is Object,
    ensures
        frame_at(bytes + more, from) == frame_at(bytes, from),
{
    let start = skip_spaces(bytes, from);
    let longer = bytes + more;
    lemma_skip_spaces(bytes, from);
    assert forall|j: int| from <= j < start implies is_space(#[trigger] longer[j]) by {
        assert(longer[j] == bytes[j]);
    }
    assert(longer[start] == bytes[start]);
    lemma_skip_spaces_is(longer, from, start);
    lemma_object_end_bounds(bytes, start + 1, scan_start());
    let end = object_end(bytes, start + 1, scan_start()).unwrap();
    assert forall|j: int| start + 1 <= j < end implies #[trigger] same_byte(
        bytes,
        j,
        longer,
        0,
    ) by {
        assert(longer[j] == bytes[j]);
    }
    lemma_object_end_window(bytes, start + 1, scan_start(), longer, 0);
}

/// A single frame, put at position `at` of a stream whose bytes from
/// `from` to `at` are white space, is the frame found from `from`.
pub proof fn lemma_frame_placed(stream: Seq<u8>, from: int, at: int, record: Seq<u8>)
    requires
        0 <= from <= at,
        at + record.len() <= stream.len() <= usize::MAX,
        forall|j: int| from <= j < at ==> is_space(#[trigger] stream[j]),
        stream.subrange(at, at + record.len()) == record,
        is_single_frame(record),
    ensures
        frame_at(stream, from) == (Frame::Object {
            start: (at + skip_spaces(record, 0)) as usize,
            end: (at + record.len()) as usize,
        }),
        0 <= skip_spaces(record, 0) < record.len(),
{
    let q = skip_spaces(record, 0);
    lemma_skip_spaces(record, 0);
    assert forall|j: int| 0 <= j < record.len() implies stream[at + j] == #[trigger] record[j] by {
        assert(stream.subrange(at, at + record.len())[j] == stream[at + j]);
    }
    assert forall|j: int| from <= j < at + q implies is_space(#[trigger] stream[j]) by {
        if j >= at {
            assert(stream[j] == record[j - at]);
        }
    }
    assert(stream[at + q] == record[q]);
    lemma_skip_spaces_is(stream, from, at + q);
    lemma_object_end_bounds(record, q + 1, scan_start());
    assert forall|j: int| q + 1 <= j < record.len() implies #[trigger] same_byte(
        record,
        j,
        stream,
        at,
    ) by {
        assert(stream[at + j] == record[j]);
    }
    lemma_object_end_window(record, q + 1, scan_start(), stream, at);
}

/// Skips white space from `from` on.
pub fn skip_white_space(bytes: &[u8], from: usize) -> (at: usize)
    requires
        from <= bytes.len(),
    ensures
        at == skip_spaces(bytes@, from as int),
        from <= at <= bytes.len(),
{
    let mut at: usize = from;
    while at < bytes.len() && (bytes[at] == 0x20 || bytes[at] == 0x0a || bytes[at] == 0x0d
        || bytes[at] == 0x09)
        invariant
            from <= at <= bytes.len(),
            skip_spaces(bytes@, from as int) == skip_spaces(bytes@, at as int),
        decreases bytes.len() - at,
    {
        at += 1;
    }
    at
}

/// Finds the frame that stands in `bytes` from position `from` on.
pub fn next_frame(bytes: &[u8], from: usize) -> (frame: Frame)
    requires
        from <= bytes.len(),
    ensures
        frame == frame_at(bytes@, from as int),
        frame matches Frame::Object { start, end } ==> from <= start < end <= bytes.len() && start
            == skip_spaces(bytes@, from as int),
{
    let start = skip_white_space(bytes, from);
    if start >= bytes.len() {
        return Frame::End;
    }
    if bytes[start] != 0x7b {
        return Frame::Broken;
    }
    let mut at: usize = start + 1;
    let mut depth: usize = 1;
    let mut in_string = false;
    let mut escaped = false;
    while at < bytes.len()
        invariant
            from <= start < at <= bytes.len(),
            start == skip_spaces(bytes@, from as int),
            bytes[start as int] == 0x7b,
            1 <= depth <= at - start,
            object_end(bytes@, start + 1, scan_start()) == object_end(
                bytes@,
                at as int,
                Scan { depth: depth as nat, in_string, escaped },
            ),
        decreases bytes.len() - at,
    {
        let b = bytes[at];
        let ghost before = Scan { depth: depth as nat, in_string, escaped };
        assert(object_end(bytes@, at as int, before) == if scan_step(before, b).depth == 0 {
            Some(at + 1)
        } else {
            object_end(bytes@, at + 1, scan_step(before, b))
        });
        if in_string {
            if escaped {
                escaped = false;
            } else if b == 0x5c {
                escaped = true;
            } else if b == 0x22 {
                in_string = false;
            }
        } else if b == 0x22 {
            in_string = true;
        } else if b == 0x7b {
            depth += 1;
        } else if b == 0x7d {
            depth -= 1;
            if depth == 0 {
                return Frame::Object { start, end: at + 1 };
            }
        }
        at += 1;
    }
    Frame::Cut
}

} // verus!

