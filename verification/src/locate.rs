//! The cursor locator: a pure scanner that resolves a target (line, column)
//! position into a cursor over one contiguous byte span.
//!
//! The span's bytes are decoded tolerantly (invalid sequences become the
//! replacement character, so scanning is total over arbitrary bytes) and then
//! walked one extended grapheme cluster at a time: every cluster advances the
//! column by exactly one, however many bytes or code points it holds, and a
//! cluster holding a line feed ends the line.

use vstd::prelude::*;

use unicode_segmentation::UnicodeSegmentation;

use crate::cursor::Cursor;
use crate::position::Position;

verus! {

/// The characters that a tolerant UTF-8 decode of `bytes` yields: valid
/// sequences decode as themselves, invalid ones become replacement
/// characters. A function of the bytes alone.
pub uninterp spec fn lossy_chars(bytes: Seq<u8>) -> Seq<char>;

/// The extended grapheme clusters of a text, each as its UTF-8 bytes, in
/// order. A function of the text alone.
pub uninterp spec fn clusters_of(text: Seq<char>) -> Seq<Seq<u8>>;

/// Total byte length of a sequence of clusters.
pub open spec fn total_len(cs: Seq<Seq<u8>>) -> int
    decreases cs.len(),
{
    if cs.len() == 0 {
        0
    } else {
        total_len(cs.drop_last()) + cs.last().len()
    }
}

/// Whether a cluster contains a line feed byte. Since the line feed is
/// ASCII, its byte can occur in UTF-8 only as the character itself.
pub open spec fn has_nl(c: Seq<u8>) -> bool {
    exists|k: int| 0 <= k < c.len() && c[k] == 10u8
}

/// Relies on `String::from_utf8_lossy`: decodes the bytes as UTF-8,
/// replacing each invalid sequence with the replacement character, so valid
/// UTF-8 decodes to exactly its characters; the result depends on the bytes
/// alone, and each resulting character consumes at least one input byte.
#[verifier::external_body]
fn decode_lossy(bytes: &[u8]) -> (r: String)
    ensures
        r@ == lossy_chars(bytes@),
        r@.len() <= bytes@.len(),
        vstd::utf8::valid_utf8(bytes@) ==> r@ == vstd::utf8::decode_utf8(bytes@),
{
    String::from_utf8_lossy(bytes).into_owned()
}

/// Relies on `UnicodeSegmentation::graphemes` for `str`: yields the extended
/// grapheme clusters of the text — non-empty consecutive substrings whose
/// concatenation is the whole text — so the clusters' bytes flatten to the
/// text's UTF-8 encoding; the segmentation depends on the text alone.
#[verifier::external_body]
fn split_graphemes(text: &str) -> (r: Vec<Vec<u8>>)
    ensures
        r@.map_values(|c: Vec<u8>| c@) == clusters_of(text@),
        forall|i: int| 0 <= i < r@.len() ==> #[trigger] r@[i]@.len() >= 1,
        r@.map_values(|c: Vec<u8>| c@).flatten() == vstd::utf8::encode_utf8(text@),
{
    text.graphemes(true).map(|g| g.as_bytes().to_vec()).collect()
}

/// Whether `c` holds a line feed byte.
fn contains_nl(c: &Vec<u8>) -> (r: bool)
    ensures
        r == has_nl(c@),
{
    let mut k: usize = 0;
    while k < c.len()
        invariant
            k <= c@.len(),
            forall|j: int| 0 <= j < k ==> c@[j] != 10u8,
        decreases c@.len() - k,
    {
        if c[k] == 10u8 {
            return true;
        }
        k = k + 1;
    }
    false
}

/// One step of the locator's scan, at cluster `i`. The candidate cursor
/// holds position `pos` and offset `at` (the offset it was last set to);
/// `next` is the byte offset of cluster `i` itself. A cluster first moves
/// the candidate's offset to `next`; a position match resolves there; a
/// line-feed cluster on the target's line resolves there too, at the line's
/// end; otherwise the position advances — one column per cluster, or to the
/// next line's start after a line feed — and the scan continues. An
/// exhausted scan fails with the candidate as it last stood.
pub open spec fn walk(
    cs: Seq<Seq<u8>>,
    i: int,
    target: Position,
    pos: Position,
    at: usize,
    next: usize,
) -> Result<Cursor, Cursor>
    decreases cs.len() - i,
{
    if i < 0 || i >= cs.len() {
        Err(Cursor { position: pos, offset: at })
    } else if pos == target {
        Ok(Cursor { position: pos, offset: next })
    } else if has_nl(cs[i]) && target.line == pos.line {
        Ok(Cursor { position: pos, offset: next })
    } else {
        let pos2 = if has_nl(cs[i]) {
            Position { line: (pos.line + 1) as usize, column: 0 }
        } else {
            Position { line: pos.line, column: (pos.column + 1) as usize }
        };
        walk(cs, i + 1, target, pos2, next, (next + cs[i].len()) as usize)
    }
}

/// What `locate` resolves on a span that decodes and segments into the
/// clusters `cs`: the walk over all of `cs` starting at `start`.
pub open spec fn locate_spec(cs: Seq<Seq<u8>>, target: Position, start: Cursor) -> Result<
    Cursor,
    Cursor,
> {
    walk(cs, 0, target, start.position, start.offset, start.offset)
}

proof fn lemma_total_len_nonneg(cs: Seq<Seq<u8>>)
    ensures
        total_len(cs) >= 0,
    decreases cs.len(),
{
    if cs.len() > 0 {
        lemma_total_len_nonneg(cs.drop_last());
    }
}

proof fn lemma_total_len_take_step(cs: Seq<Seq<u8>>, i: int)
    requires
        0 <= i < cs.len(),
    ensures
        total_len(cs.take(i + 1)) == total_len(cs.take(i)) + cs[i].len(),
{
    assert(cs.take(i + 1).drop_last() =~= cs.take(i));
    assert(cs.take(i + 1).last() == cs[i]);
}

proof fn lemma_total_len_take_bound(cs: Seq<Seq<u8>>, i: int)
    requires
        0 <= i <= cs.len(),
    ensures
        total_len(cs.take(i)) <= total_len(cs),
    decreases cs.len() - i,
{
    if i == cs.len() {
        assert(cs.take(i) =~= cs);
    } else {
        lemma_total_len_take_step(cs, i);
        lemma_total_len_take_bound(cs, i + 1);
    }
}

proof fn lemma_cluster_count_le_total_len(cs: Seq<Seq<u8>>)
    requires
        forall|i: int| 0 <= i < cs.len() ==> #[trigger] cs[i].len() >= 1,
    ensures
        cs.len() <= total_len(cs),
    decreases cs.len(),
{
    if cs.len() > 0 {
        assert(forall|i: int|
            0 <= i < cs.drop_last().len() ==> #[trigger] cs.drop_last()[i].len() >= 1);
        lemma_cluster_count_le_total_len(cs.drop_last());
    }
}

proof fn lemma_total_len_is_flatten_len(cs: Seq<Seq<u8>>)
    ensures
        total_len(cs) == cs.flatten().len(),
    decreases cs.len(),
{
    cs.lemma_flatten_and_flatten_alt_are_equivalent();
    if cs.len() == 0 {
        assert(cs.flatten_alt().len() == 0);
    } else {
        lemma_total_len_is_flatten_len(cs.drop_last());
        cs.drop_last().lemma_flatten_and_flatten_alt_are_equivalent();
    }
}

proof fn lemma_encode_utf8_len(chars: Seq<char>)
    ensures
        vstd::utf8::encode_utf8(chars).len() <= 4 * chars.len(),
    decreases chars.len(),
{
    if chars.len() > 0 {
        lemma_encode_utf8_len(chars.drop_first());
        assert(vstd::utf8::encode_scalar(chars[0] as u32).len() <= 4);
    }
}

/// The clusters of the tolerant decode of `bytes` hold at most four bytes
/// per input byte, and at least one byte each.
proof fn lemma_clusters_total_len(bytes: Seq<u8>)
    requires
        forall|i: int|
            0 <= i < clusters_of(lossy_chars(bytes)).len() ==> #[trigger] clusters_of(
                lossy_chars(bytes),
            )[i].len() >= 1,
        clusters_of(lossy_chars(bytes)).flatten() == vstd::utf8::encode_utf8(lossy_chars(bytes)),
        lossy_chars(bytes).len() <= bytes.len(),
    ensures
        total_len(clusters_of(lossy_chars(bytes))) <= 4 * bytes.len(),
        clusters_of(lossy_chars(bytes)).len() <= total_len(clusters_of(lossy_chars(bytes))),
{
    let cs = clusters_of(lossy_chars(bytes));
    lemma_total_len_is_flatten_len(cs);
    lemma_encode_utf8_len(lossy_chars(bytes));
    lemma_cluster_count_le_total_len(cs);
}

proof fn lemma_total_len_head(cs: Seq<Seq<u8>>)
    requires
        cs.len() > 0,
    ensures
        total_len(cs) == cs[0].len() + total_len(cs.drop_first()),
    decreases cs.len(),
{
    if cs.len() == 1 {
        assert(cs.drop_first() =~= Seq::<Seq<u8>>::empty());
        assert(cs.drop_last() =~= Seq::<Seq<u8>>::empty());
        assert(total_len(Seq::<Seq<u8>>::empty()) == 0);
    } else {
        lemma_total_len_head(cs.drop_last());
        assert(cs.drop_last()[0] == cs[0]);
        assert(cs.drop_last().drop_first() =~= cs.drop_first().drop_last());
        assert(cs.drop_first().last() == cs.last());
        assert(total_len(cs.drop_first()) == total_len(cs.drop_first().drop_last())
            + cs.drop_first().last().len());
        assert(total_len(cs) == total_len(cs.drop_last()) + cs.last().len());
        assert(total_len(cs.drop_last()) == cs[0].len() + total_len(cs.drop_last().drop_first()));
    }
}

proof fn lemma_total_len_skip_step(cs: Seq<Seq<u8>>, i: int)
    requires
        0 <= i < cs.len(),
    ensures
        total_len(cs.skip(i)) == cs[i].len() + total_len(cs.skip(i + 1)),
{
    lemma_total_len_head(cs.skip(i));
    assert(cs.skip(i)[0] == cs[i]);
    assert(cs.skip(i).drop_first() =~= cs.skip(i + 1));
}

proof fn lemma_walk_no_nl(
    cs: Seq<Seq<u8>>,
    i: int,
    target: Position,
    pos: Position,
    at: usize,
    next: usize,
)
    requires
        0 <= i <= cs.len(),
        forall|j: int| i <= j < cs.len() ==> !has_nl(#[trigger] cs[j]),
        pos.column + (cs.len() - i) <= usize::MAX,
        next + total_len(cs.skip(i)) <= usize::MAX,
    ensures
        i < cs.len() ==> (walk(cs, i, target, pos, at, next) matches Err(c) ==> c.position.line
            == pos.line && c.position.column == pos.column + (cs.len() - i) && c.offset == next
            + total_len(cs.skip(i)) - cs.last().len()),
        i == cs.len() ==> (walk(cs, i, target, pos, at, next) matches Err(c) ==> c
            == (Cursor { position: pos, offset: at })),
        walk(cs, i, target, pos, at, next) matches Ok(c) ==> c.position == target,
    decreases cs.len() - i,
{
    if i >= cs.len() {
        assert(cs.skip(i) =~= Seq::<Seq<u8>>::empty());
    } else if pos == target {
    } else {
        lemma_total_len_skip_step(cs, i);
        lemma_total_len_nonneg(cs.skip(i + 1));
        let pos2 = Position { line: pos.line, column: (pos.column + 1) as usize };
        lemma_walk_no_nl(cs, i + 1, target, pos2, next, (next + cs[i].len()) as usize);
        if i + 1 < cs.len() {
        } else {
            assert(cs.skip(i) =~= seq![cs[i]]);
            assert(cs.last() == cs[i]);
            assert(total_len(cs.skip(i)) == cs[i].len() + total_len(cs.skip(i + 1)));
        }
    }
}

/// Grapheme atomicity: over a span without line feeds, every cluster — even
/// one of several bytes or code points — advances the column by exactly one.
/// A scan that exhausts such clusters ends `cs.len()` columns further on the
/// same line, with an offset that reached the last cluster — the byte length
/// of the clusters before it; one that succeeds landed exactly on the
/// target.
pub proof fn lemma_grapheme_atomicity(cs: Seq<Seq<u8>>, target: Position, start: Cursor)
    requires
        cs.len() > 0,
        forall|j: int| 0 <= j < cs.len() ==> !has_nl(#[trigger] cs[j]),
        start.position.column + cs.len() <= usize::MAX,
        start.offset + total_len(cs) <= usize::MAX,
    ensures
        locate_spec(cs, target, start) matches Err(c) ==> c.position.line == start.position.line
            && c.position.column == start.position.column + cs.len() && c.offset == start.offset
            + total_len(cs.drop_last()),
        locate_spec(cs, target, start) matches Ok(c) ==> c.position == target,
{
    assert(cs.skip(0) =~= cs);
    lemma_walk_no_nl(cs, 0, target, start.position, start.offset, start.offset);
    assert(total_len(cs) == total_len(cs.drop_last()) + cs.last().len());
}

/// The cluster index at which a walk from `i` stops, for relating a
/// successful scan to the cluster it stopped on.
pub open spec fn walk_steps(
    cs: Seq<Seq<u8>>,
    i: int,
    target: Position,
    pos: Position,
    next: usize,
) -> int
    decreases cs.len() - i,
{
    if i < 0 || i >= cs.len() {
        i
    } else if pos == target {
        i
    } else if has_nl(cs[i]) && target.line == pos.line {
        i
    } else {
        let pos2 = if has_nl(cs[i]) {
            Position { line: (pos.line + 1) as usize, column: 0 }
        } else {
            Position { line: pos.line, column: (pos.column + 1) as usize }
        };
        walk_steps(cs, i + 1, target, pos2, (next + cs[i].len()) as usize)
    }
}

proof fn lemma_walk_success(
    cs: Seq<Seq<u8>>,
    i: int,
    target: Position,
    pos: Position,
    at: usize,
    next: usize,
)
    ensures
        walk(cs, i, target, pos, at, next) matches Ok(c) ==> c.position == target || (
        c.position.line == target.line && 0 <= walk_steps(cs, i, target, pos, next) < cs.len()
            && has_nl(cs[walk_steps(cs, i, target, pos, next)])),
    decreases cs.len() - i,
{
    if i < 0 || i >= cs.len() {
    } else if pos == target {
    } else if has_nl(cs[i]) && target.line == pos.line {
    } else {
        let pos2 = if has_nl(cs[i]) {
            Position { line: (pos.line + 1) as usize, column: 0 }
        } else {
            Position { line: pos.line, column: (pos.column + 1) as usize }
        };
        lemma_walk_success(cs, i + 1, target, pos2, next, (next + cs[i].len()) as usize);
    }
}

/// What a successful scan can resolve to: the target itself, or — when the
/// target's line ends before its column is reached — the line-feed cluster
/// that ends that line, so the cursor still lies on the target's line.
pub proof fn lemma_locate_success(cs: Seq<Seq<u8>>, target: Position, start: Cursor)
    ensures
        locate_spec(cs, target, start) matches Ok(c) ==> c.position == target || (c.position.line
            == target.line && has_nl(
            cs[walk_steps(cs, 0, target, start.position, start.offset)],
        )),
{
    lemma_walk_success(cs, 0, target, start.position, start.offset, start.offset);
}

/// Resolves `target` over the single contiguous byte span `span`, scanning
/// grapheme clusters from the cursor `start`: `Ok` with the resolved cursor,
/// or `Err` with the cursor as it last stood when the span was exhausted
/// first.
pub fn locate(span: &[u8], target: Position, start: Cursor) -> (r: Result<Cursor, Cursor>)
    requires
        start.offset + 4 * span@.len() <= usize::MAX,
        start.position.line + 4 * span@.len() <= usize::MAX,
        start.position.column + 4 * span@.len() <= usize::MAX,
    ensures
        r == locate_spec(clusters_of(lossy_chars(span@)), target, start),
        r matches Err(c) ==> c.offset <= start.offset + 4 * span@.len() && c.position.line
            <= start.position.line + 4 * span@.len() && c.position.column <= start.position.column
            + 4 * span@.len(),
{
    let text = decode_lossy(span);
    let clusters = split_graphemes(text.as_str());
    let ghost cs = clusters_of(lossy_chars(span@));
    proof {
        lemma_clusters_total_len(span@);
        lemma_total_len_nonneg(cs);
    }
    let mut pos = start.position;
    let mut at = start.offset;
    let mut next = start.offset;
    let mut k: usize = 0;
    assert(cs.take(0) =~= Seq::<Seq<u8>>::empty());
    while k < clusters.len()
        invariant
            cs == clusters_of(lossy_chars(span@)),
            clusters@.map_values(|c: Vec<u8>| c@) == cs,
            k <= cs.len(),
            total_len(cs) <= 4 * span@.len(),
            cs.len() <= total_len(cs),
            start.offset + 4 * span@.len() <= usize::MAX,
            start.position.line + 4 * span@.len() <= usize::MAX,
            start.position.column + 4 * span@.len() <= usize::MAX,
            locate_spec(cs, target, start) == walk(cs, k as int, target, pos, at, next),
            next == start.offset + total_len(cs.take(k as int)),
            at <= next,
            k == 0 ==> at == start.offset && pos == start.position,
            pos.line <= start.position.line + k,
            pos.column <= start.position.column + k,
        decreases cs.len() - k,
    {
        proof {
            lemma_total_len_take_step(cs, k as int);
            lemma_total_len_take_bound(cs, k + 1);
            lemma_total_len_nonneg(cs.take(k as int));
            assert(clusters@[k as int]@ == cs[k as int]);
        }
        at = next;
        if pos.line == target.line && pos.column == target.column {
            return Ok(Cursor::new(pos, at));
        }
        let nl = contains_nl(&clusters[k]);
        if nl && target.line == pos.line {
            return Ok(Cursor::new(pos, at));
        }
        let len_k = clusters[k].len();
        if nl {
            pos = Position::new(pos.line + 1, 0);
        } else {
            pos = Position::new(pos.line, pos.column + 1);
        }
        next = next + len_k;
        k = k + 1;
    }
    proof {
        assert(cs.take(k as int) =~= cs);
    }
    Err(Cursor::new(pos, at))
}

} // verus!
