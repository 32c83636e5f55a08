//! The gap store and the buffer built on it.
//!
//! Physical storage is a byte vector split by a contentless "gap" range
//! `[gap_start, gap_end)`; the logical content is the storage with the gap
//! excluded. Keeping the gap at the edit point makes insertions cheap: moving
//! or resizing the gap shifts only the bytes between its old and new place.

use vstd::prelude::*;

use crate::cursor::Cursor;
use crate::locate::{clusters_of, locate, locate_spec, lossy_chars};
use crate::position::Position;

verus! {

use vstd::slice::slice_subrange;

/// The logical content of storage `s` whose gap is `[gs, ge)`: the bytes
/// before the gap followed by the bytes after it.
pub open spec fn logical(s: Seq<u8>, gs: int, ge: int) -> Seq<u8>
    recommends
        0 <= gs <= ge <= s.len(),
{
    s.subrange(0, gs) + s.subrange(ge, s.len() as int)
}

/// Where the gap starts after relocating a gap `[gs, ge)` so that it touches
/// `to`: a request at or inside the gap leaves it alone; one before it puts
/// the gap start at `to`; one after it puts the gap end at `to`.
pub open spec fn moved_gap_start(gs: int, ge: int, to: int) -> int {
    if gs <= to <= ge {
        gs
    } else if to < gs {
        to
    } else {
        to - (ge - gs)
    }
}

/// Whether content `s` uses the CRLF line-ending convention: the byte before
/// the last line feed in `s` is a carriage return. Content without a line
/// feed, or with nothing before its last line feed, counts as LF.
pub open spec fn crlf_spec(s: Seq<u8>) -> bool
    decreases s.len(),
{
    if s.len() == 0 {
        false
    } else if s[s.len() - 1] == 10u8 {
        s.len() >= 2 && s[s.len() - 2] == 13u8
    } else {
        crlf_spec(s.take(s.len() - 1))
    }
}

/// Scans backward from the end of `bytes` for the first line feed and reports
/// whether a carriage return precedes it.
pub fn detect_crlf(bytes: &[u8]) -> (r: bool)
    ensures
        r == crlf_spec(bytes@),
{
    let mut i: usize = bytes.len();
    assert(bytes@.take(i as int) =~= bytes@);
    while i > 0
        invariant
            i <= bytes@.len(),
            crlf_spec(bytes@) == crlf_spec(bytes@.take(i as int)),
        decreases i,
    {
        if bytes[i - 1] == 10u8 {
            return i >= 2 && bytes[i - 2] == 13u8;
        }
        proof {
            assert(bytes@.take(i as int).take(i - 1) =~= bytes@.take(i - 1));
        }
        i = i - 1;
    }
    false
}

/// What `cursor_place` adopts for `target` over storage `s` with gap
/// `[gs, ge)` and tracked cursor `cur`. A target already under the cursor is
/// a no-op. Otherwise the locator scans the span before the gap from the
/// origin; on failure its cursor skips to the gap's end — where content
/// resumes — and the scan continues over the span after the gap. If that
/// also fails, the result is clamped: to the end of the logical content when
/// the scan never reached the target's line, or one past the final byte when
/// the scan stopped exactly there.
pub open spec fn place_spec(s: Seq<u8>, gs: int, ge: int, cur: Cursor, target: Position) -> Cursor {
    if cur.position == target {
        cur
    } else {
        let pre = clusters_of(lossy_chars(s.subrange(0, gs)));
        let origin = Cursor { position: Position { line: 0, column: 0 }, offset: 0 };
        match locate_spec(pre, target, origin) {
            Ok(c) => c,
            Err(c1) => {
                let seed = Cursor { position: c1.position, offset: ge as usize };
                let post = clusters_of(lossy_chars(s.subrange(ge, s.len() as int)));
                match locate_spec(post, target, seed) {
                    Ok(c) => c,
                    Err(c2) => {
                        if c2.position.line < target.line {
                            Cursor { position: c2.position, offset: (s.len() - (ge - gs)) as usize }
                        } else if c2.offset == s.len() - 1 {
                            Cursor { position: c2.position, offset: (c2.offset + 1) as usize }
                        } else {
                            c2
                        }
                    },
                }
            },
        }
    }
}

/// Idempotence of placement: resolving `target` again, from the cursor that
/// a first resolution over the same storage and gap produced, yields that
/// cursor unchanged — either the fast path sees the target already under the
/// cursor, or the same two-pass scan recomputes the same result.
pub proof fn lemma_place_idempotent(s: Seq<u8>, gs: int, ge: int, cur: Cursor, target: Position)
    ensures
        place_spec(s, gs, ge, place_spec(s, gs, ge, cur, target), target) == place_spec(
            s,
            gs,
            ge,
            cur,
            target,
        ),
{
}

/// The storage after sliding the chunk `[cs, ce)` past a gap, so that its
/// bytes land at `to` (when moving left of the chunk) or end at `to` (when
/// moving right of it); each vacated source byte is zeroed. A request that
/// names an empty chunk, or a destination coinciding with a chunk edge,
/// changes nothing.
pub open spec fn chunk_moved(s: Seq<u8>, cs: int, ce: int, to: int) -> Seq<u8> {
    if cs >= ce || to == cs || to == ce {
        s
    } else if to < cs {
        Seq::new(
            s.len(),
            |j: int|
                if to <= j < to + (ce - cs) {
                    s[j - to + cs]
                } else if cs <= j < ce {
                    0u8
                } else {
                    s[j]
                },
        )
    } else {
        Seq::new(
            s.len(),
            |j: int|
                if cs + (to - ce) <= j < to {
                    s[j - (to - ce)]
                } else if cs <= j < ce {
                    0u8
                } else {
                    s[j]
                },
        )
    }
}

/// Slides the chunk `[cs, ce)` of `v` so that it lands at `to` (for `to` at
/// or left of the chunk) or ends at `to` (for `to` at or right of it),
/// zeroing each vacated byte. The iteration order — downward when the chunk
/// shifts right, upward when it shifts left — never reads a byte that the
/// same pass has already overwritten or zeroed.
fn chunk_move(v: &mut Vec<u8>, cs: usize, ce: usize, to: usize)
    requires
        cs <= ce <= old(v)@.len(),
        to <= cs || ce <= to,
        to <= old(v)@.len(),
    ensures
        final(v)@ == chunk_moved(old(v)@, cs as int, ce as int, to as int),
{
    if cs == ce || to == cs || to == ce {
        assert(v@ =~= chunk_moved(v@, cs as int, ce as int, to as int));
        return ;
    }
    let ghost orig = v@;
    if to < cs {
        let mut i: usize = cs;
        while i < ce
            invariant
                cs <= i <= ce <= orig.len(),
                to < cs,
                v@.len() == orig.len(),
                forall|j: int| to <= j < to + (i - cs) ==> v@[j] == orig[j - to + cs],
                forall|j: int| cs <= j < i && !(to <= j < to + (i - cs)) ==> v@[j] == 0,
                forall|j: int|
                    0 <= j < orig.len() && !(to <= j < to + (i - cs)) && !(cs <= j < i)
                        ==> v@[j] == orig[j],
            decreases ce - i,
        {
            let b = v[i];
            let dest = i - cs + to;
            v[dest] = b;
            v[i] = 0;
            i = i + 1;
        }
        assert(v@ =~= chunk_moved(orig, cs as int, ce as int, to as int));
    } else {
        let mut i: usize = ce;
        while i > cs
            invariant
                cs <= i <= ce <= orig.len(),
                ce < to <= orig.len(),
                v@.len() == orig.len(),
                forall|j: int| i + (to - ce) <= j < to ==> v@[j] == orig[j - (to - ce)],
                forall|j: int| i <= j < ce && !(i + (to - ce) <= j < to) ==> v@[j] == 0,
                forall|j: int|
                    0 <= j < orig.len() && !(i + (to - ce) <= j < to) && !(i <= j < ce)
                        ==> v@[j] == orig[j],
            decreases i,
        {
            i = i - 1;
            let b = v[i];
            let dest = i + (to - ce);
            v[dest] = b;
            v[i] = 0;
        }
        assert(v@ =~= chunk_moved(orig, cs as int, ce as int, to as int));
    }
}

/// A file's byte content held as a gap buffer, with the cursor tracking the
/// edit point, the originating path, and the line-ending convention detected
/// when the content was loaded.
#[derive(Debug)]
pub struct Buffer {
    /// Physical byte storage; the bytes of `[gap_start, gap_end)` are not
    /// content.
    pub buffer: Vec<u8>,
    /// First index of the gap within `buffer`.
    pub gap_start: usize,
    /// One past the last index of the gap within `buffer`.
    pub gap_end: usize,
    /// The tracked edit point; move it through `cursor_place`, not by hand.
    pub cursor: Cursor,
    /// The file path the content came from and is saved back to.
    pub path: String,
    /// Whether the content's line ending is CRLF rather than LF.
    pub is_crlf: bool,
}

impl Buffer {
    /// Builds a buffer over already-loaded content: the gap starts empty, the
    /// cursor at the origin, and the line-ending convention is detected from
    /// the content itself.
    pub fn new(content: Vec<u8>, path: String) -> (b: Buffer)
        ensures
            b.wf(),
            b.buffer@ == content@,
            b.spec_content() == content@,
            b.gap_start == 0,
            b.gap_end == 0,
            b.cursor == (Cursor { position: Position { line: 0, column: 0 }, offset: 0 }),
            b.is_crlf == crlf_spec(content@),
            b.path@ == path@,
    {
        let is_crlf = detect_crlf(content.as_slice());
        let b = Buffer {
            buffer: content,
            gap_start: 0,
            gap_end: 0,
            cursor: Cursor::new(Position::new(0, 0), 0),
            path,
            is_crlf,
        };
        assert(b.spec_content() =~= b.buffer@);
        b
    }

    /// The gap lies within the storage and holds only zero bytes.
    pub open spec fn wf(&self) -> bool {
        &&& self.gap_start <= self.gap_end <= self.buffer@.len()
        &&& forall|i: int| self.gap_start <= i < self.gap_end ==> self.buffer@[i] == 0
    }

    /// The logical content: the storage with the gap's bytes excluded.
    pub open spec fn spec_content(&self) -> Seq<u8> {
        logical(self.buffer@, self.gap_start as int, self.gap_end as int)
    }

    pub open spec fn spec_gap_len(&self) -> int {
        self.gap_end - self.gap_start
    }

    pub fn gap_len(&self) -> (r: usize)
        requires
            self.wf(),
        ensures
            r == self.spec_gap_len(),
    {
        self.gap_end - self.gap_start
    }

    pub fn is_crlf(&self) -> (r: bool)
        ensures
            r == self.is_crlf,
    {
        self.is_crlf
    }

    pub fn path(&self) -> (r: &String)
        ensures
            r@ == self.path@,
    {
        &self.path
    }

    /// A read-only snapshot of the tracked edit point.
    pub fn cursor(&self) -> (r: Cursor)
        ensures
            r == self.cursor,
    {
        self.cursor
    }

    /// The logical content, materialized: the bytes before the gap followed
    /// by the bytes after it. This is what a save writes back to the file.
    pub fn content(&self) -> (r: Vec<u8>)
        requires
            self.wf(),
        ensures
            r@ == self.spec_content(),
    {
        let mut r: Vec<u8> = Vec::new();
        let mut i: usize = 0;
        while i < self.gap_start
            invariant
                self.wf(),
                i <= self.gap_start,
                r@ == self.buffer@.subrange(0, i as int),
            decreases self.gap_start - i,
        {
            let b = self.buffer[i];
            r.push(b);
            assert(r@ =~= self.buffer@.subrange(0, i + 1));
            i = i + 1;
        }
        let mut j: usize = self.gap_end;
        while j < self.buffer.len()
            invariant
                self.wf(),
                self.gap_end <= j <= self.buffer@.len(),
                r@ == self.buffer@.subrange(0, self.gap_start as int) + self.buffer@.subrange(
                    self.gap_end as int,
                    j as int,
                ),
            decreases self.buffer@.len() - j,
        {
            let b = self.buffer[j];
            r.push(b);
            assert(r@ =~= self.buffer@.subrange(0, self.gap_start as int)
                + self.buffer@.subrange(self.gap_end as int, j + 1));
            j = j + 1;
        }
        r
    }

    /// Relocates the gap so that `to_where` touches it, without changing the
    /// logical content, the gap's length, or any other part of the buffer.
    pub fn gap_move(&mut self, to_where: usize)
        requires
            old(self).wf(),
            to_where <= old(self).buffer@.len(),
        ensures
            final(self).wf(),
            final(self).buffer@.len() == old(self).buffer@.len(),
            final(self).gap_start == moved_gap_start(
                old(self).gap_start as int,
                old(self).gap_end as int,
                to_where as int,
            ),
            final(self).spec_gap_len() == old(self).spec_gap_len(),
            final(self).spec_content() == old(self).spec_content(),
            final(self).cursor == old(self).cursor,
            final(self).path@ == old(self).path@,
            final(self).is_crlf == old(self).is_crlf,
    {
        if (self.gap_start <= to_where && to_where < self.gap_end) || to_where == self.gap_end {
            return ;
        }
        let gap_length = self.gap_end - self.gap_start;
        if gap_length == 0 {
            let ghost pre = *self;
            self.gap_start = to_where;
            self.gap_end = to_where;
            assert(self.spec_content() =~= pre.spec_content());
            return ;
        }
        let ghost pre = *self;
        if to_where < self.gap_start {
            let gs = self.gap_start;
            let ge = self.gap_end;
            chunk_move(&mut self.buffer, to_where, gs, ge);
            self.gap_start = to_where;
            self.gap_end = to_where + gap_length;
        } else {
            let gs = self.gap_start;
            let ge = self.gap_end;
            chunk_move(&mut self.buffer, ge, to_where, gs);
            self.gap_start = to_where - gap_length;
            self.gap_end = to_where;
        }
        assert(self.spec_content() =~= pre.spec_content());
    }

    /// Grows or shrinks the gap to exactly `to_size` bytes, keeping its start
    /// fixed and the logical content unchanged; storage length changes by the
    /// same amount as the gap.
    pub fn gap_resize(&mut self, to_size: usize)
        requires
            old(self).wf(),
            old(self).spec_content().len() + to_size <= usize::MAX,
        ensures
            final(self).wf(),
            final(self).gap_start == old(self).gap_start,
            final(self).gap_end == old(self).gap_start + to_size,
            final(self).spec_content() == old(self).spec_content(),
            final(self).buffer@.len() == old(self).spec_content().len() + to_size,
            final(self).cursor == old(self).cursor,
            final(self).path@ == old(self).path@,
            final(self).is_crlf == old(self).is_crlf,
    {
        let gap_length = self.gap_end - self.gap_start;
        if gap_length == to_size {
            return ;
        }
        let ghost pre = *self;
        let buffer_length = self.buffer.len();
        if to_size > gap_length {
            let delta = to_size - gap_length;
            let mut k: usize = 0;
            while k < delta
                invariant
                    k <= delta,
                    self.buffer@ == pre.buffer@ + Seq::new(k as nat, |j: int| 0u8),
                    *self == (Buffer { buffer: self.buffer, ..pre }),
                decreases delta - k,
            {
                self.buffer.push(0u8);
                assert(self.buffer@ =~= pre.buffer@ + Seq::new((k + 1) as nat, |j: int| 0u8));
                k = k + 1;
            }
            let ge = self.gap_end;
            let new_len = self.buffer.len();
            chunk_move(&mut self.buffer, ge, buffer_length, new_len);
            self.gap_end = self.gap_start + to_size;
            assert(self.spec_content() =~= pre.spec_content());
        } else {
            let gs = self.gap_start;
            let ge = self.gap_end;
            chunk_move(&mut self.buffer, ge, buffer_length, gs + to_size);
            self.buffer.truncate(buffer_length - (gap_length - to_size));
            self.gap_end = self.gap_start + to_size;
            assert(self.spec_content() =~= pre.spec_content());
        }
    }

    /// Moves the tracked cursor to `target`, or to the nearest resolvable
    /// place: the locator runs over the span before the gap and, if that
    /// fails, over the span after it; a target beyond the content clamps to
    /// the end of the buffer. The content, the gap, and everything else are
    /// untouched.
    pub fn cursor_place(&mut self, target: Position)
        requires
            old(self).wf(),
            5 * old(self).buffer@.len() + 1 <= usize::MAX,
        ensures
            final(self).wf(),
            final(self).cursor == place_spec(
                old(self).buffer@,
                old(self).gap_start as int,
                old(self).gap_end as int,
                old(self).cursor,
                target,
            ),
            final(self).buffer@ == old(self).buffer@,
            final(self).gap_start == old(self).gap_start,
            final(self).gap_end == old(self).gap_end,
            final(self).path@ == old(self).path@,
            final(self).is_crlf == old(self).is_crlf,
    {
        if self.cursor.position.line == target.line && self.cursor.position.column
            == target.column {
            return ;
        }
        let pre = slice_subrange(self.buffer.as_slice(), 0, self.gap_start);
        let origin = Cursor::new(Position::new(0, 0), 0);
        match locate(pre, target, origin) {
            Ok(c) => {
                self.cursor = c;
            },
            Err(c1) => {
                let seed = Cursor::new(c1.position, self.gap_end);
                let post = slice_subrange(self.buffer.as_slice(), self.gap_end, self.buffer.len());
                match locate(post, target, seed) {
                    Ok(c) => {
                        self.cursor = c;
                    },
                    Err(c2) => {
                        if c2.position.line < target.line {
                            let logical_len = self.buffer.len() - (self.gap_end - self.gap_start);
                            self.cursor = Cursor::new(c2.position, logical_len);
                        } else if self.buffer.len() > 0 && c2.offset == self.buffer.len() - 1 {
                            self.cursor = Cursor::new(c2.position, c2.offset + 1);
                        } else {
                            self.cursor = c2;
                        }
                    },
                }
            },
        }
    }

    /// Where an insertion at the tracked cursor lands in the logical content:
    /// the gap start after relocating the gap to the cursor's offset.
    pub open spec fn spec_insert_at(&self) -> int {
        moved_gap_start(self.gap_start as int, self.gap_end as int, self.cursor.offset as int)
    }

    /// Insert round-trip: for a tracked cursor whose offset lies outside the
    /// gap — as every cursor this buffer produces does, the offset denoting
    /// the logical location `o` directly before the gap and shifted by the
    /// gap's length after it — the insertion point of `insert` is exactly
    /// `o`, so by `insert`'s contract splicing `text` there yields logical
    /// content `orig[0..o] + text + orig[o..]` and a cursor offset of
    /// `o + text.len()`.
    pub proof fn lemma_insert_round_trip(self)
        requires
            self.wf(),
            self.cursor.offset <= self.gap_start || self.gap_end <= self.cursor.offset
                <= self.buffer@.len(),
        ensures
            self.spec_insert_at() == if self.cursor.offset <= self.gap_start {
                self.cursor.offset as int
            } else {
                self.cursor.offset - self.spec_gap_len()
            },
            0 <= self.spec_insert_at() <= self.spec_content().len(),
    {
    }

    /// Splices `text` into the logical content at the cursor: relocates the
    /// gap to the cursor's offset, grows it if `text` does not fit, copies
    /// `text` into it, and advances the gap start and the cursor's column and
    /// offset by the inserted byte length.
    pub fn insert(&mut self, text: &[u8])
        requires
            old(self).wf(),
            old(self).cursor.offset <= old(self).buffer@.len(),
            old(self).spec_content().len() + text@.len() <= usize::MAX,
            old(self).cursor.position.column + text@.len() <= usize::MAX,
        ensures
            final(self).wf(),
            ({
                let p = old(self).spec_insert_at();
                let orig = old(self).spec_content();
                &&& final(self).spec_content() == orig.subrange(0, p) + text@ + orig.subrange(
                    p,
                    orig.len() as int,
                )
                &&& final(self).cursor.offset == p + text@.len()
                &&& final(self).gap_start == p + text@.len()
                &&& final(self).spec_gap_len() == if text@.len() > old(self).spec_gap_len() {
                    0int
                } else {
                    old(self).spec_gap_len() - text@.len()
                }
            }),
            final(self).cursor.position.line == old(self).cursor.position.line,
            final(self).cursor.position.column == old(self).cursor.position.column + text@.len(),
            final(self).path@ == old(self).path@,
            final(self).is_crlf == old(self).is_crlf,
    {
        let ghost p = old(self).spec_insert_at();
        let ghost orig = old(self).spec_content();
        let o = self.cursor.offset;
        self.gap_move(o);
        self.cursor.offset = self.gap_start;
        if text.len() > self.gap_end - self.gap_start {
            self.gap_resize(text.len());
        }
        let ghost pre = *self;
        let mut i: usize = 0;
        while i < text.len()
            invariant
                pre.wf(),
                i <= text@.len() <= pre.gap_end - pre.gap_start,
                self.gap_start == pre.gap_start,
                self.gap_end == pre.gap_end,
                self.cursor == pre.cursor,
                self.path@ == pre.path@,
                self.is_crlf == pre.is_crlf,
                self.buffer@.len() == pre.buffer@.len(),
                forall|j: int|
                    pre.gap_start <= j < pre.gap_start + i ==> self.buffer@[j] == text@[j
                        - pre.gap_start],
                forall|j: int|
                    0 <= j < pre.buffer@.len() && !(pre.gap_start <= j < pre.gap_start + i)
                        ==> self.buffer@[j] == pre.buffer@[j],
            decreases text@.len() - i,
        {
            let b = text[i];
            let idx = self.gap_start + i;
            self.buffer[idx] = b;
            i = i + 1;
        }
        let offset = text.len();
        self.gap_start = self.gap_start + offset;
        self.cursor.position.column = self.cursor.position.column + offset;
        self.cursor.offset = self.cursor.offset + offset;
        proof {
            assert forall|j: int| self.gap_start <= j < self.gap_end implies self.buffer@[j]
                == 0 by {
                assert(pre.gap_start <= j < pre.gap_end);
                assert(self.buffer@[j] == pre.buffer@[j]);
            }
        }
        assert(self.spec_content() =~= orig.subrange(0, p) + text@ + orig.subrange(
            p,
            orig.len() as int,
        ));
    }
}

} // verus!
