//! Splitting of long memory bodies into overlapping chunks that fit the
//! embedding model's input limit.
//!
//! Offsets are byte offsets into the body's UTF-8 encoding. A chunk ends,
//! by preference, after the last blank line, sentence end or space of its
//! window, and the next chunk starts a fixed overlap before that end.
use vstd::prelude::*;
use vstd::utf8::*;
use vstd::string::*;

use crate::constants::{CHUNK_OVERLAP_TOKENS, CHUNK_SIZE_TOKENS};

verus! {

/// Bytes counted as one model token.
pub const CHARS_PER_TOKEN: usize = 4;

/// Largest chunk, in bytes.
pub const CHUNK_SIZE_CHARS: usize = CHUNK_SIZE_TOKENS * CHARS_PER_TOKEN;

/// Bytes that a chunk shares with the chunk before it.
pub const CHUNK_OVERLAP_CHARS: usize = CHUNK_OVERLAP_TOKENS * CHARS_PER_TOKEN;

pub const NEWLINE: u8 = 10;
pub const FULL_STOP: u8 = 46;
pub const SPACE: u8 = 32;

/// A piece of a memory body, with its byte span in the body.
#[derive(Debug, Clone)]
pub struct Chunk {
    pub text: String,
    pub start_offset: usize,
    pub end_offset: usize,
    pub token_count_approx: usize,
}

/// `i` is a position at which a UTF-8 byte string may be cut: its start,
/// its end, or a byte that does not continue a multi-byte character.
pub open spec fn is_boundary(bytes: Seq<u8>, i: int) -> bool {
    ||| i == 0
    ||| i == bytes.len()
    ||| (0 < i < bytes.len() && !is_continuation_byte(bytes[i]))
}

/// The start of the last occurrence of the two bytes `a`, `b` that lies
/// wholly in `bytes[lo..hi]`.
pub open spec fn last_pair_in(bytes: Seq<u8>, lo: int, hi: int, a: u8, b: u8) -> Option<int>
    decreases hi - lo,
{
    if hi - lo < 2 {
        None
    } else if bytes[hi - 2] == a && bytes[hi - 1] == b {
        Some(hi - 2)
    } else {
        last_pair_in(bytes, lo, hi - 1, a, b)
    }
}

/// The position of the last byte `c` in `bytes[lo..hi]`.
pub open spec fn last_byte_in(bytes: Seq<u8>, lo: int, hi: int, c: u8) -> Option<int>
    decreases hi - lo,
{
    if hi - lo < 1 {
        None
    } else if bytes[hi - 1] == c {
        Some(hi - 1)
    } else {
        last_byte_in(bytes, lo, hi - 1, c)
    }
}

/// Where a chunk whose window is `bytes[start..desired_end]` ends: after
/// the window's last blank line, else after its last ". ", else after its
/// last space, else at the window's end.
pub open spec fn split_boundary(bytes: Seq<u8>, start: int, desired_end: int) -> int {
    match last_pair_in(bytes, start, desired_end, NEWLINE, NEWLINE) {
        Some(q) => q + 2,
        None => match last_pair_in(bytes, start, desired_end, FULL_STOP, SPACE) {
            Some(q) => q + 2,
            None => match last_byte_in(bytes, start, desired_end, SPACE) {
                Some(q) => q + 1,
                None => desired_end,
            },
        },
    }
}

/// End of the window of the chunk that starts at `start`.
pub open spec fn window_end(bytes: Seq<u8>, start: int) -> int {
    if start + CHUNK_SIZE_CHARS < bytes.len() {
        start + CHUNK_SIZE_CHARS
    } else {
        bytes.len() as int
    }
}

/// End of the chunk that starts at `start`.
pub open spec fn chunk_end(bytes: Seq<u8>, start: int) -> int {
    let d = window_end(bytes, start);
    if d < bytes.len() {
        split_boundary(bytes, start, d)
    } else {
        d
    }
}

/// Start of the chunk that follows a chunk ending at `end`: the overlap
/// before `end`, or the body's start.
pub open spec fn overlap_start(end: int) -> int {
    if end >= CHUNK_OVERLAP_CHARS {
        end - CHUNK_OVERLAP_CHARS
    } else {
        0
    }
}

/// Start of the chunk that follows the chunk that starts at `start`.
pub open spec fn next_start(bytes: Seq<u8>, start: int) -> int {
    overlap_start(chunk_end(bytes, start))
}

/// Every position at which the chunk starting at `start` cuts the body
/// lies on a character boundary.
pub open spec fn step_cuts_on_boundaries(bytes: Seq<u8>, start: int) -> bool {
    &&& is_boundary(bytes, start)
    &&& (window_end(bytes, start) < bytes.len() ==> is_boundary(bytes, window_end(bytes, start)))
    &&& is_boundary(bytes, chunk_end(bytes, start))
}

/// The spans of the chunks from `start` on, when the walk reaches the end
/// of the body within `fuel` chunks, cutting only on character boundaries.
pub open spec fn chunk_plan(bytes: Seq<u8>, start: int, fuel: nat) -> Option<Seq<(int, int)>>
    decreases fuel,
{
    if fuel == 0 || !step_cuts_on_boundaries(bytes, start) {
        None
    } else if chunk_end(bytes, start) >= bytes.len() {
        Some(seq![(start, chunk_end(bytes, start))])
    } else {
        match chunk_plan(bytes, next_start(bytes, start), (fuel - 1) as nat) {
            Some(rest) => Some(seq![(start, chunk_end(bytes, start))] + rest),
            None => None,
        }
    }
}

/// The body is short enough to be embedded whole.
pub open spec fn fits_one_chunk(bytes: Seq<u8>) -> bool {
    bytes.len() <= CHUNK_SIZE_CHARS
}

/// Splitting the body ends, each cut on a character boundary.
pub open spec fn chunking_completes(bytes: Seq<u8>) -> bool {
    exists|f: nat| #[trigger] chunk_plan(bytes, 0, f) is Some
}

/// The byte spans of the chunks of a body.
pub open spec fn chunk_spans(bytes: Seq<u8>) -> Seq<(int, int)> {
    if fits_one_chunk(bytes) {
        seq![(0, bytes.len() as int)]
    } else {
        chunk_plan(bytes, 0, choose|f: nat| #[trigger] chunk_plan(bytes, 0, f) is Some).unwrap()
    }
}

/// `c` is the chunk of `bytes` with span `span`.
pub open spec fn chunk_matches_span(c: Chunk, bytes: Seq<u8>, span: (int, int)) -> bool {
    &&& c.start_offset == span.0
    &&& c.end_offset == span.1
    &&& encode_utf8(c.text@) == bytes.subrange(span.0, span.1)
    &&& c.token_count_approx == (span.1 - span.0) / (CHARS_PER_TOKEN as int)
}

/// Whether `body` is too long to be embedded as one piece.
pub fn needs_chunking(body: &str) -> (r: bool)
    ensures
        r == !fits_one_chunk(body.spec_bytes()),
{
    body.as_bytes().len() > CHUNK_SIZE_CHARS
}

proof fn lemma_boundary_is_char_boundary(bytes: Seq<u8>, i: int)
    requires
        valid_utf8(bytes),
        is_boundary(bytes, i),
    ensures
        is_char_boundary(bytes, i),
{
    if i == 0 || i == bytes.len() {
        is_char_boundary_start_end_of_seq(bytes);
    } else {
        is_char_boundary_iff_not_is_continuation_byte(bytes, i);
    }
}

/// The text of `body` between two cut positions.
fn span_text(body: &str, start: usize, end: usize) -> (text: String)
    requires
        start <= end <= body.spec_bytes().len(),
        is_boundary(body.spec_bytes(), start as int),
        is_boundary(body.spec_bytes(), end as int),
    ensures
        encode_utf8(text@) == body.spec_bytes().subrange(start as int, end as int),
{
    let ghost bytes = body.spec_bytes();
    proof {
        encode_utf8_valid_utf8(body@);
        lemma_boundary_is_char_boundary(bytes, start as int);
    }
    let (_, tail) = body.split_at(start);
    let ghost tb = tail.spec_bytes();
    proof {
        encode_utf8_valid_utf8(tail@);
        assert(tb =~= bytes.subrange(start as int, bytes.len() as int));
        let k = end - start;
        if 0 < k < tb.len() {
            assert(tb[k] == bytes[end as int]);
        }
        assert(is_boundary(tb, k));
        lemma_boundary_is_char_boundary(tb, k);
    }
    let (mid, _) = tail.split_at(end - start);
    let text = mid.to_owned();
    proof {
        assert(mid.spec_bytes() =~= bytes.subrange(start as int, end as int));
    }
    text
}

/// The start of the last `a`, `b` pair in `bytes[lo..hi]`.
fn rfind_pair(bytes: &[u8], lo: usize, hi: usize, a: u8, b: u8) -> (r: Option<usize>)
    requires
        lo <= hi <= bytes@.len(),
    ensures
        match r {
            Some(q) => last_pair_in(bytes@, lo as int, hi as int, a, b) == Some(q as int),
            None => last_pair_in(bytes@, lo as int, hi as int, a, b) is None,
        },
{
    let mut h = hi;
    while h - lo >= 2
        invariant
            lo <= h <= hi <= bytes@.len(),
            last_pair_in(bytes@, lo as int, hi as int, a, b) == last_pair_in(
                bytes@,
                lo as int,
                h as int,
                a,
                b,
            ),
        decreases h,
    {
        if bytes[h - 2] == a && bytes[h - 1] == b {
            return Some(h - 2);
        }
        h = h - 1;
    }
    None
}

/// The position of the last byte `c` in `bytes[lo..hi]`.
fn rfind_byte(bytes: &[u8], lo: usize, hi: usize, c: u8) -> (r: Option<usize>)
    requires
        lo <= hi <= bytes@.len(),
    ensures
        match r {
            Some(q) => last_byte_in(bytes@, lo as int, hi as int, c) == Some(q as int),
            None => last_byte_in(bytes@, lo as int, hi as int, c) is None,
        },
{
    let mut h = hi;
    while h - lo >= 1
        invariant
            lo <= h <= hi <= bytes@.len(),
            last_byte_in(bytes@, lo as int, hi as int, c) == last_byte_in(
                bytes@,
                lo as int,
                h as int,
                c,
            ),
        decreases h,
    {
        if bytes[h - 1] == c {
            return Some(h - 1);
        }
        h = h - 1;
    }
    None
}

/// Where the chunk with window `body[start..desired_end]` ends.
fn find_split_boundary(body: &str, start: usize, desired_end: usize) -> (end: usize)
    requires
        start < desired_end <= body.spec_bytes().len(),
        is_boundary(body.spec_bytes(), start as int),
        is_boundary(body.spec_bytes(), desired_end as int),
    ensures
        end == split_boundary(body.spec_bytes(), start as int, desired_end as int),
{
    let bytes = body.as_bytes();
    proof {
        lemma_split_boundary_range(bytes@, start as int, desired_end as int);
        lemma_last_pair_range(bytes@, start as int, desired_end as int, NEWLINE, NEWLINE);
        lemma_last_pair_range(bytes@, start as int, desired_end as int, FULL_STOP, SPACE);
        lemma_last_byte_range(bytes@, start as int, desired_end as int, SPACE);
    }
    if let Some(pos) = rfind_pair(bytes, start, desired_end, NEWLINE, NEWLINE) {
        return pos + 2;
    }
    if let Some(pos) = rfind_pair(bytes, start, desired_end, FULL_STOP, SPACE) {
        return pos + 2;
    }
    if let Some(pos) = rfind_byte(bytes, start, desired_end, SPACE) {
        return pos + 1;
    }
    desired_end
}

/// Splits `body` into the chunks that are embedded in its place.
///
/// A body that fits one chunk comes back whole. A longer body is cut into
/// chunks of at most `CHUNK_SIZE_CHARS` bytes, each starting
/// `CHUNK_OVERLAP_CHARS` bytes before the end of the one before it.
/// The inputs left out are those on which the split would cut inside a
/// character or would never reach the end of the body.
pub fn split_into_chunks(body: &str) -> (chunks: Vec<Chunk>)
    requires
        fits_one_chunk(body.spec_bytes()) || chunking_completes(body.spec_bytes()),
    ensures
        chunks@.len() == chunk_spans(body.spec_bytes()).len(),
        forall|i: int|
            0 <= i < chunks@.len() ==> chunk_matches_span(
                #[trigger] chunks@[i],
                body.spec_bytes(),
                chunk_spans(body.spec_bytes())[i],
            ),
{
    let bytes = body.as_bytes();
    let n = bytes.len();
    let ghost sb = body.spec_bytes();
    if n <= CHUNK_SIZE_CHARS {
        let text = body.to_owned();
        let mut one: Vec<Chunk> = Vec::new();
        one.push(
            Chunk {
                token_count_approx: n / CHARS_PER_TOKEN,
                text,
                start_offset: 0,
                end_offset: n,
            },
        );
        proof {
            assert(sb.subrange(0, sb.len() as int) =~= sb);
            assert(chunk_matches_span(one@[0], sb, chunk_spans(sb)[0]));
        }
        return one;
    }
    let ghost f0: nat = choose|f: nat| #[trigger] chunk_plan(sb, 0, f) is Some;
    let ghost full = chunk_spans(sb);
    let ghost mut fuel: nat = f0;
    assert(full == chunk_plan(sb, 0, fuel).unwrap());
    assert(full.skip(0) =~= full);

    let mut chunks: Vec<Chunk> = Vec::new();
    let mut start: usize = 0;
    loop
        invariant_except_break
            chunk_plan(sb, start as int, fuel).unwrap() == full.skip(chunks@.len() as int),
        invariant
            bytes@ == sb,
            sb == body.spec_bytes(),
            n == sb.len(),
            n > CHUNK_SIZE_CHARS,
            start < n,
            full == chunk_spans(sb),
            chunk_plan(sb, start as int, fuel) is Some,
            chunks@.len() <= full.len(),
            forall|i: int|
                0 <= i < chunks@.len() ==> chunk_matches_span(#[trigger] chunks@[i], sb, full[i]),
        ensures
            chunks@.len() == full.len(),
            forall|i: int|
                0 <= i < chunks@.len() ==> chunk_matches_span(#[trigger] chunks@[i], sb, full[i]),
        decreases fuel,
    {
        let ghost plan = chunk_plan(sb, start as int, fuel).unwrap();
        let ghost k = chunks@.len() as int;
        assert(plan.len() >= 1);
        assert(k < full.len()) by {
            assert(full.skip(k).len() == full.len() - k);
        }
        assert(full[k] == plan[0]) by {
            assert(full.skip(k)[0] == full[k]);
        }
        let desired_end = if n - start > CHUNK_SIZE_CHARS {
            start + CHUNK_SIZE_CHARS
        } else {
            n
        };
        assert(desired_end == window_end(sb, start as int));
        let end = if desired_end < n {
            find_split_boundary(body, start, desired_end)
        } else {
            desired_end
        };
        assert(end == chunk_end(sb, start as int));
        proof {
            if desired_end < n {
                assert(start < end) by {
                    lemma_split_boundary_range(sb, start as int, desired_end as int);
                }
            }
        }
        let text = span_text(body, start, end);
        let chunk = Chunk {
            text,
            start_offset: start,
            end_offset: end,
            token_count_approx: (end - start) / CHARS_PER_TOKEN,
        };
        chunks.push(chunk);
        proof {
            assert(plan[0] == (start as int, end as int));
            assert forall|i: int| 0 <= i < chunks@.len() implies chunk_matches_span(
                #[trigger] chunks@[i],
                sb,
                full[i],
            ) by {
                if i == k {
                    assert(chunks@[i] == chunk);
                }
            }
        }
        if end >= n {
            proof {
                assert(plan.len() == 1);
                assert(full.skip(k).len() == full.len() - k);
            }
            break ;
        }
        start = if end >= CHUNK_OVERLAP_CHARS {
            end - CHUNK_OVERLAP_CHARS
        } else {
            0
        };
        proof {
            let rest = chunk_plan(sb, start as int, (fuel - 1) as nat).unwrap();
            assert(rest =~= full.skip(k + 1)) by {
                assert(rest =~= plan.skip(1));
                assert(plan.skip(1) =~= full.skip(k).skip(1));
                assert(full.skip(k).skip(1) =~= full.skip(k + 1));
            }
            fuel = (fuel - 1) as nat;
        }
    }
    chunks
}

proof fn lemma_plan_shape(bytes: Seq<u8>, start: int, fuel: nat)
    requires
        0 <= start < bytes.len(),
        chunk_plan(bytes, start, fuel) is Some,
    ensures
        ({
            let p = chunk_plan(bytes, start, fuel).unwrap();
            &&& p.len() >= 1
            &&& p[0].0 == start
            &&& p[p.len() - 1].1 == bytes.len()
            &&& forall|i: int|
                0 <= i < p.len() ==> 0 <= (#[trigger] p[i]).0 < p[i].1 <= bytes.len() && p[i].1
                    - p[i].0 <= CHUNK_SIZE_CHARS
            &&& forall|i: int|
                0 <= i < p.len() - 1 ==> (#[trigger] p[i]).1 < bytes.len() && p[i + 1].0
                    == overlap_start(p[i].1)
            &&& forall|i: int| 0 <= i < p.len() ==> (#[trigger] p[i]).1 == chunk_end(bytes, p[i].0)
        }),
    decreases fuel,
{
    let d = window_end(bytes, start);
    let e = chunk_end(bytes, start);
    if d < bytes.len() {
        lemma_split_boundary_range(bytes, start, d);
    }
    assert(start < e <= bytes.len() && e - start <= CHUNK_SIZE_CHARS);
    if e < bytes.len() {
        let ns = next_start(bytes, start);
        lemma_plan_shape(bytes, ns, (fuel - 1) as nat);
        let rest = chunk_plan(bytes, ns, (fuel - 1) as nat).unwrap();
        let p = chunk_plan(bytes, start, fuel).unwrap();
        assert(p == seq![(start, e)] + rest);
        assert forall|i: int| 0 <= i < p.len() implies 0 <= (#[trigger] p[i]).0 < p[i].1 <= bytes.len()
            && p[i].1 - p[i].0 <= CHUNK_SIZE_CHARS by {
            if i > 0 {
                assert(p[i] == rest[i - 1]);
            }
        }
        assert forall|i: int| 0 <= i < p.len() implies (#[trigger] p[i]).1 == chunk_end(
            bytes,
            p[i].0,
        ) by {
            if i > 0 {
                assert(p[i] == rest[i - 1]);
            }
        }
        assert forall|i: int| 0 <= i < p.len() - 1 implies (#[trigger] p[i]).1 < bytes.len()
            && p[i + 1].0 == overlap_start(p[i].1) by {
            if i > 0 {
                assert(p[i] == rest[i - 1]);
                assert(p[i + 1] == rest[i]);
            } else {
                assert(p[1] == rest[0]);
            }
        }
    }
}

/// The chunks of a body cover it in order. The first starts at the body's
/// start and the last ends at its end; every chunk holds at most
/// `CHUNK_SIZE_CHARS` bytes and lies within the body; every chunk but the
/// last ends before the body's end, and the chunk after it starts
/// `CHUNK_OVERLAP_CHARS` bytes before that end (or at the body's start).
/// A body that does not fit one chunk yields at least two.
pub proof fn lemma_chunk_spans_cover_body(bytes: Seq<u8>)
    requires
        fits_one_chunk(bytes) || chunking_completes(bytes),
    ensures
        chunk_spans(bytes).len() >= 1,
        chunk_spans(bytes)[0].0 == 0,
        chunk_spans(bytes)[chunk_spans(bytes).len() - 1].1 == bytes.len(),
        forall|i: int|
            0 <= i < chunk_spans(bytes).len() ==> 0 <= (#[trigger] chunk_spans(bytes)[i]).0
                <= chunk_spans(bytes)[i].1 <= bytes.len() && chunk_spans(bytes)[i].1 - chunk_spans(
                bytes,
            )[i].0 <= CHUNK_SIZE_CHARS,
        forall|i: int|
            0 <= i < chunk_spans(bytes).len() - 1 ==> (#[trigger] chunk_spans(bytes)[i]).1
                < bytes.len() && chunk_spans(bytes)[i + 1].0 == (if chunk_spans(bytes)[i].1
                >= CHUNK_OVERLAP_CHARS {
                chunk_spans(bytes)[i].1 - CHUNK_OVERLAP_CHARS
            } else {
                0
            }),
        !fits_one_chunk(bytes) ==> chunk_spans(bytes).len() >= 2,
{
    if !fits_one_chunk(bytes) {
        let f = choose|f: nat| #[trigger] chunk_plan(bytes, 0, f) is Some;
        lemma_plan_shape(bytes, 0, f);
        let p = chunk_plan(bytes, 0, f).unwrap();
        assert(p[0].1 < bytes.len()) by {
            lemma_split_boundary_range(bytes, 0, CHUNK_SIZE_CHARS as int);
        }
    }
}

/// Where a chunk that is cut inside its window ends, stated over the
/// window's bytes: after the last blank line (`"\n\n"`) that lies wholly
/// in the window, when there is one; else after the last sentence end
/// (`". "`) that lies wholly in it; else after its last space; else at the
/// window's end.
proof fn lemma_split_boundary_rules(bytes: Seq<u8>, s: int, w: int)
    requires
        0 <= s < w <= bytes.len(),
    ensures
        ({
            let e = split_boundary(bytes, s, w);
            &&& s < e <= w
            &&& if exists|q: int|
                s <= q && q + 2 <= w && #[trigger] bytes[q] == NEWLINE && bytes[q + 1] == NEWLINE {
                &&& s <= e - 2
                &&& bytes[e - 2] == NEWLINE
                &&& bytes[e - 1] == NEWLINE
                &&& forall|q: int|
                    e - 1 <= q && q + 2 <= w ==> !(#[trigger] bytes[q] == NEWLINE && bytes[q + 1]
                        == NEWLINE)
            } else if exists|q: int|
                s <= q && q + 2 <= w && #[trigger] bytes[q] == FULL_STOP && bytes[q + 1] == SPACE {
                &&& s <= e - 2
                &&& bytes[e - 2] == FULL_STOP
                &&& bytes[e - 1] == SPACE
                &&& forall|q: int|
                    e - 1 <= q && q + 2 <= w ==> !(#[trigger] bytes[q] == FULL_STOP && bytes[q + 1]
                        == SPACE)
            } else if exists|q: int| s <= q < w && #[trigger] bytes[q] == SPACE {
                &&& s <= e - 1
                &&& bytes[e - 1] == SPACE
                &&& forall|q: int| e <= q < w ==> #[trigger] bytes[q] != SPACE
            } else {
                e == w
            }
        }),
{
    lemma_split_boundary_range(bytes, s, w);
    lemma_last_pair_range(bytes, s, w, NEWLINE, NEWLINE);
    lemma_last_pair_range(bytes, s, w, FULL_STOP, SPACE);
    lemma_last_byte_range(bytes, s, w, SPACE);
    let e = split_boundary(bytes, s, w);
    if exists|q: int| s <= q && q + 2 <= w && #[trigger] bytes[q] == NEWLINE && bytes[q + 1] == NEWLINE {
        let q0 = choose|q: int|
            s <= q && q + 2 <= w && #[trigger] bytes[q] == NEWLINE && bytes[q + 1] == NEWLINE;
        lemma_last_pair_covers(bytes, s, w, NEWLINE, NEWLINE, q0);
        assert forall|q: int| e - 1 <= q && q + 2 <= w implies !(#[trigger] bytes[q] == NEWLINE
            && bytes[q + 1] == NEWLINE) by {
            if bytes[q] == NEWLINE && bytes[q + 1] == NEWLINE {
                lemma_last_pair_covers(bytes, s, w, NEWLINE, NEWLINE, q);
            }
        }
    } else {
        if let Some(q) = last_pair_in(bytes, s, w, NEWLINE, NEWLINE) {
            assert(bytes[q] == NEWLINE);
        }
        if exists|q: int|
            s <= q && q + 2 <= w && #[trigger] bytes[q] == FULL_STOP && bytes[q + 1] == SPACE {
            let q0 = choose|q: int|
                s <= q && q + 2 <= w && #[trigger] bytes[q] == FULL_STOP && bytes[q + 1] == SPACE;
            lemma_last_pair_covers(bytes, s, w, FULL_STOP, SPACE, q0);
            assert forall|q: int| e - 1 <= q && q + 2 <= w implies !(#[trigger] bytes[q]
                == FULL_STOP && bytes[q + 1] == SPACE) by {
                if bytes[q] == FULL_STOP && bytes[q + 1] == SPACE {
                    lemma_last_pair_covers(bytes, s, w, FULL_STOP, SPACE, q);
                }
            }
        } else {
            if let Some(q) = last_pair_in(bytes, s, w, FULL_STOP, SPACE) {
                assert(bytes[q] == FULL_STOP);
            }
            if exists|q: int| s <= q < w && #[trigger] bytes[q] == SPACE {
                let q0 = choose|q: int| s <= q < w && #[trigger] bytes[q] == SPACE;
                lemma_last_byte_covers(bytes, s, w, SPACE, q0);
                assert forall|q: int| e <= q < w implies #[trigger] bytes[q] != SPACE by {
                    if bytes[q] == SPACE {
                        lemma_last_byte_covers(bytes, s, w, SPACE, q);
                    }
                }
            } else {
                if let Some(q) = last_byte_in(bytes, s, w, SPACE) {
                    assert(bytes[q] == SPACE);
                }
            }
        }
    }
}

/// Where each chunk that ends inside the body is cut, stated over the
/// bytes of its window `bytes[start..start + CHUNK_SIZE_CHARS]`, which
/// lies wholly in the body: right after the last blank line (`"\n\n"`)
/// of the window, when the window holds one; else right after its last
/// sentence end (`". "`); else right after its last space; else at the
/// window's end. "Last" means that no later such pair (or space) lies
/// wholly in the window.
pub proof fn lemma_chunk_cut_rules(bytes: Seq<u8>, i: int)
    requires
        fits_one_chunk(bytes) || chunking_completes(bytes),
        0 <= i < chunk_spans(bytes).len(),
        chunk_spans(bytes)[i].1 < bytes.len(),
    ensures
        ({
            let s = chunk_spans(bytes)[i].0;
            let e = chunk_spans(bytes)[i].1;
            let w = s + CHUNK_SIZE_CHARS;
            &&& 0 <= s < e <= w < bytes.len()
            &&& if exists|q: int|
                s <= q && q + 2 <= w && #[trigger] bytes[q] == NEWLINE && bytes[q + 1] == NEWLINE {
                &&& s <= e - 2
                &&& bytes[e - 2] == NEWLINE
                &&& bytes[e - 1] == NEWLINE
                &&& forall|q: int|
                    e - 1 <= q && q + 2 <= w ==> !(#[trigger] bytes[q] == NEWLINE && bytes[q + 1]
                        == NEWLINE)
            } else if exists|q: int|
                s <= q && q + 2 <= w && #[trigger] bytes[q] == FULL_STOP && bytes[q + 1] == SPACE {
                &&& s <= e - 2
                &&& bytes[e - 2] == FULL_STOP
                &&& bytes[e - 1] == SPACE
                &&& forall|q: int|
                    e - 1 <= q && q + 2 <= w ==> !(#[trigger] bytes[q] == FULL_STOP && bytes[q + 1]
                        == SPACE)
            } else if exists|q: int| s <= q < w && #[trigger] bytes[q] == SPACE {
                &&& s <= e - 1
                &&& bytes[e - 1] == SPACE
                &&& forall|q: int| e <= q < w ==> #[trigger] bytes[q] != SPACE
            } else {
                e == w
            }
        }),
{
    lemma_chunk_spans_cover_body(bytes);
    if !fits_one_chunk(bytes) {
        let f = choose|f: nat| #[trigger] chunk_plan(bytes, 0, f) is Some;
        lemma_plan_shape(bytes, 0, f);
        let p = chunk_plan(bytes, 0, f).unwrap();
        let s = p[i].0;
        assert(p[i].1 == chunk_end(bytes, s));
        assert(window_end(bytes, s) < bytes.len());
        lemma_split_boundary_rules(bytes, s, s + CHUNK_SIZE_CHARS);
    }
}

/// The walk from `start` reaches the end of the body, cutting only on
/// character boundaries.
pub open spec fn completes_from(bytes: Seq<u8>, start: int) -> bool {
    exists|f: nat| #[trigger] chunk_plan(bytes, start, f) is Some
}

/// The spans of the walk from `start`, when it completes.
pub open spec fn spans_from(bytes: Seq<u8>, start: int) -> Seq<(int, int)> {
    chunk_plan(bytes, start, choose|f: nat| #[trigger] chunk_plan(bytes, start, f) is Some).unwrap()
}

proof fn lemma_plan_deterministic(bytes: Seq<u8>, start: int, f1: nat, f2: nat)
    requires
        chunk_plan(bytes, start, f1) is Some,
        chunk_plan(bytes, start, f2) is Some,
    ensures
        chunk_plan(bytes, start, f1) == chunk_plan(bytes, start, f2),
    decreases f1,
{
    if chunk_end(bytes, start) < bytes.len() {
        lemma_plan_deterministic(bytes, next_start(bytes, start), (f1 - 1) as nat, (f2 - 1) as nat);
    }
}

/// One step of the walk: where its cuts are not all on character
/// boundaries, the walk does not complete; where it ends the body, it
/// completes with that one span; else it completes exactly when the walk
/// from the next start does, with this span in front.
proof fn lemma_walk_step(bytes: Seq<u8>, start: int)
    ensures
        !step_cuts_on_boundaries(bytes, start) ==> !completes_from(bytes, start),
        step_cuts_on_boundaries(bytes, start) && chunk_end(bytes, start) >= bytes.len() ==> (
        completes_from(bytes, start) && spans_from(bytes, start) == seq![
            (start, chunk_end(bytes, start)),
        ]),
        step_cuts_on_boundaries(bytes, start) && chunk_end(bytes, start) < bytes.len() ==> ((
        completes_from(bytes, start) <==> completes_from(bytes, next_start(bytes, start))) && (
        completes_from(bytes, start) ==> spans_from(bytes, start) == seq![
            (start, chunk_end(bytes, start)),
        ] + spans_from(bytes, next_start(bytes, start)))),
{
    let e = chunk_end(bytes, start);
    if !step_cuts_on_boundaries(bytes, start) {
        assert forall|f: nat| !(#[trigger] chunk_plan(bytes, start, f) is Some) by {}
    } else if e >= bytes.len() {
        assert(chunk_plan(bytes, start, 1) is Some);
        let f = choose|f: nat| #[trigger] chunk_plan(bytes, start, f) is Some;
        lemma_plan_deterministic(bytes, start, f, 1);
    } else {
        let ns = next_start(bytes, start);
        if completes_from(bytes, start) {
            let f = choose|f: nat| #[trigger] chunk_plan(bytes, start, f) is Some;
            assert(chunk_plan(bytes, ns, (f - 1) as nat) is Some);
            let g = choose|g: nat| #[trigger] chunk_plan(bytes, ns, g) is Some;
            lemma_plan_deterministic(bytes, ns, (f - 1) as nat, g);
        }
        if completes_from(bytes, ns) {
            let g = choose|g: nat| #[trigger] chunk_plan(bytes, ns, g) is Some;
            assert(chunk_plan(bytes, start, g + 1) is Some);
        }
    }
}

proof fn lemma_last_pair_covers(bytes: Seq<u8>, lo: int, hi: int, a: u8, b: u8, q2: int)
    requires
        lo <= q2,
        q2 + 2 <= hi,
        bytes[q2] == a,
        bytes[q2 + 1] == b,
    ensures
        last_pair_in(bytes, lo, hi, a, b) matches Some(q) && q2 <= q,
    decreases hi - lo,
{
    if !(bytes[hi - 2] == a && bytes[hi - 1] == b) {
        lemma_last_pair_covers(bytes, lo, hi - 1, a, b, q2);
    }
}

proof fn lemma_last_byte_covers(bytes: Seq<u8>, lo: int, hi: int, c: u8, q2: int)
    requires
        lo <= q2,
        q2 + 1 <= hi,
        bytes[q2] == c,
    ensures
        last_byte_in(bytes, lo, hi, c) matches Some(q) && q2 <= q,
    decreases hi - lo,
{
    if bytes[hi - 1] != c {
        lemma_last_byte_covers(bytes, lo, hi - 1, c, q2);
    }
}

/// The end of a pair search in the window of `t` is covered by the one of
/// `s`: a match that the window of `t` finds at or after `s` lies in the
/// window of `s`, and a match of the window of `s` that fits the window of
/// `t` is found there too.
proof fn lemma_pair_windows(bytes: Seq<u8>, t: int, s: int, ht: int, hs: int, a: u8, b: u8)
    requires
        t <= s,
        ht <= hs,
    ensures
        last_pair_in(bytes, t, ht, a, b) matches Some(q1) ==> (q1 >= s ==> (last_pair_in(
            bytes,
            s,
            hs,
            a,
            b,
        ) matches Some(q) && q1 <= q)),
        last_pair_in(bytes, s, hs, a, b) matches Some(q) ==> (q + 2 <= ht ==> (last_pair_in(
            bytes,
            t,
            ht,
            a,
            b,
        ) matches Some(q1) && q <= q1)),
{
    lemma_last_pair_range(bytes, t, ht, a, b);
    lemma_last_pair_range(bytes, s, hs, a, b);
    if let Some(q1) = last_pair_in(bytes, t, ht, a, b) {
        if q1 >= s {
            lemma_last_pair_covers(bytes, s, hs, a, b, q1);
        }
    }
    if let Some(q) = last_pair_in(bytes, s, hs, a, b) {
        if q + 2 <= ht {
            lemma_last_pair_covers(bytes, t, ht, a, b, q);
        }
    }
}

proof fn lemma_byte_windows(bytes: Seq<u8>, t: int, s: int, ht: int, hs: int, c: u8)
    requires
        t <= s,
        ht <= hs,
    ensures
        last_byte_in(bytes, t, ht, c) matches Some(q1) ==> (q1 >= s ==> (last_byte_in(
            bytes,
            s,
            hs,
            c,
        ) matches Some(q) && q1 <= q)),
        last_byte_in(bytes, s, hs, c) matches Some(q) ==> (q + 1 <= ht ==> (last_byte_in(
            bytes,
            t,
            ht,
            c,
        ) matches Some(q1) && q <= q1)),
{
    lemma_last_byte_range(bytes, t, ht, c);
    lemma_last_byte_range(bytes, s, hs, c);
    if let Some(q1) = last_byte_in(bytes, t, ht, c) {
        if q1 >= s {
            lemma_last_byte_covers(bytes, s, hs, c, q1);
        }
    }
    if let Some(q) = last_byte_in(bytes, s, hs, c) {
        if q + 1 <= ht {
            lemma_last_byte_covers(bytes, t, ht, c, q);
        }
    }
}

/// A chunk that starts no later than another, both cut inside the body,
/// ends no later than the other.
proof fn lemma_chunk_end_monotone(bytes: Seq<u8>, t: int, s: int)
    requires
        0 <= t <= s,
        s + CHUNK_SIZE_CHARS < bytes.len(),
    ensures
        chunk_end(bytes, t) <= chunk_end(bytes, s),
{
    let ht = t + CHUNK_SIZE_CHARS;
    let hs = s + CHUNK_SIZE_CHARS;
    lemma_pair_windows(bytes, t, s, ht, hs, NEWLINE, NEWLINE);
    lemma_pair_windows(bytes, t, s, ht, hs, FULL_STOP, SPACE);
    lemma_byte_windows(bytes, t, s, ht, hs, SPACE);
    lemma_last_pair_range(bytes, t, ht, NEWLINE, NEWLINE);
    lemma_last_pair_range(bytes, s, hs, NEWLINE, NEWLINE);
    lemma_last_pair_range(bytes, t, ht, FULL_STOP, SPACE);
    lemma_last_pair_range(bytes, s, hs, FULL_STOP, SPACE);
    lemma_last_byte_range(bytes, t, ht, SPACE);
    lemma_last_byte_range(bytes, s, hs, SPACE);
    lemma_split_boundary_range(bytes, t, ht);
    lemma_split_boundary_range(bytes, s, hs);
}

/// Once a chunk's successor does not start after it, the walk never ends:
/// from any start up to that chunk's, every chunk ends inside the body and
/// every next start is again no later than that chunk's.
proof fn lemma_walk_stuck(bytes: Seq<u8>, s0: int, t: int, fuel: nat)
    requires
        0 <= t <= s0,
        chunk_end(bytes, s0) < bytes.len(),
        next_start(bytes, s0) <= s0,
    ensures
        chunk_plan(bytes, t, fuel) is None,
    decreases fuel,
{
    assert(s0 + CHUNK_SIZE_CHARS < bytes.len());
    lemma_chunk_end_monotone(bytes, t, s0);
    if fuel > 0 && step_cuts_on_boundaries(bytes, t) {
        let nt = next_start(bytes, t);
        assert(0 <= nt <= s0);
        lemma_walk_stuck(bytes, s0, nt, (fuel - 1) as nat);
    }
}

/// Whether position `i` of `bytes` is a character boundary.
fn is_cut_position(bytes: &[u8], i: usize) -> (r: bool)
    requires
        i <= bytes@.len(),
    ensures
        r == is_boundary(bytes@, i as int),
{
    if i == 0 || i == bytes.len() {
        true
    } else {
        let b = bytes[i];
        !(0x80 <= b && b <= 0xbf)
    }
}

/// Splits `body` into its chunks as `split_into_chunks` does, or gives
/// `None` on exactly the bodies that `split_into_chunks` leaves out: those
/// on which the split would cut inside a character or would never reach
/// the end of the body.
pub fn try_split_into_chunks(body: &str) -> (r: Option<Vec<Chunk>>)
    ensures
        r is Some <==> (fits_one_chunk(body.spec_bytes()) || chunking_completes(body.spec_bytes())),
        r matches Some(chunks) ==> {
            &&& chunks@.len() == chunk_spans(body.spec_bytes()).len()
            &&& forall|i: int|
                0 <= i < chunks@.len() ==> chunk_matches_span(
                    #[trigger] chunks@[i],
                    body.spec_bytes(),
                    chunk_spans(body.spec_bytes())[i],
                )
        },
{
    let bytes = body.as_bytes();
    let n = bytes.len();
    let ghost sb = body.spec_bytes();
    if n <= CHUNK_SIZE_CHARS {
        return Some(split_into_chunks(body));
    }
    let ghost mut done: Seq<(int, int)> = Seq::empty();
    let mut chunks: Vec<Chunk> = Vec::new();
    let mut start: usize = 0;
    loop
        invariant
            bytes@ == sb,
            sb == body.spec_bytes(),
            n == sb.len(),
            n > CHUNK_SIZE_CHARS,
            start < n,
            completes_from(sb, 0) <==> completes_from(sb, start as int),
            completes_from(sb, start as int) ==> spans_from(sb, 0) == done + spans_from(
                sb,
                start as int,
            ),
            chunks@.len() == done.len(),
            forall|i: int|
                0 <= i < chunks@.len() ==> chunk_matches_span(#[trigger] chunks@[i], sb, done[i]),
        decreases n - start,
    {
        proof {
            lemma_walk_step(sb, start as int);
        }
        let desired_end = if n - start > CHUNK_SIZE_CHARS {
            start + CHUNK_SIZE_CHARS
        } else {
            n
        };
        if !is_cut_position(bytes, start) || (desired_end < n && !is_cut_position(
            bytes,
            desired_end,
        )) {
            return None;
        }
        let end = if desired_end < n {
            find_split_boundary(body, start, desired_end)
        } else {
            desired_end
        };
        proof {
            if desired_end < n {
                lemma_split_boundary_range(sb, start as int, desired_end as int);
            }
        }
        if !is_cut_position(bytes, end) {
            return None;
        }
        let text = span_text(body, start, end);
        let chunk = Chunk {
            text,
            start_offset: start,
            end_offset: end,
            token_count_approx: (end - start) / CHARS_PER_TOKEN,
        };
        chunks.push(chunk);
        proof {
            let k = done.len() as int;
            done = done.push((start as int, end as int));
            assert forall|i: int| 0 <= i < chunks@.len() implies chunk_matches_span(
                #[trigger] chunks@[i],
                sb,
                done[i],
            ) by {
                if i == k {
                    assert(chunks@[i] == chunk);
                }
            }
        }
        if end >= n {
            proof {
                assert(spans_from(sb, 0) =~= done);
            }
            return Some(chunks);
        }
        let next = if end >= CHUNK_OVERLAP_CHARS {
            end - CHUNK_OVERLAP_CHARS
        } else {
            0
        };
        if next <= start {
            proof {
                assert forall|f: nat| !(#[trigger] chunk_plan(sb, start as int, f) is Some) by {
                    lemma_walk_stuck(sb, start as int, start as int, f);
                }
            }
            return None;
        }
        proof {
            if completes_from(sb, next as int) {
                assert(spans_from(sb, 0) =~= done + spans_from(sb, next as int));
            }
        }
        start = next;
    }
}

proof fn lemma_last_pair_range(bytes: Seq<u8>, lo: int, hi: int, a: u8, b: u8)
    ensures
        last_pair_in(bytes, lo, hi, a, b) matches Some(q) ==> lo <= q && q + 2 <= hi && bytes[q]
            == a && bytes[q + 1] == b,
    decreases hi - lo,
{
    if hi - lo >= 2 && !(bytes[hi - 2] == a && bytes[hi - 1] == b) {
        lemma_last_pair_range(bytes, lo, hi - 1, a, b);
    }
}

proof fn lemma_last_byte_range(bytes: Seq<u8>, lo: int, hi: int, c: u8)
    ensures
        last_byte_in(bytes, lo, hi, c) matches Some(q) ==> lo <= q && q + 1 <= hi && bytes[q] == c,
    decreases hi - lo,
{
    if hi - lo >= 1 && bytes[hi - 1] != c {
        lemma_last_byte_range(bytes, lo, hi - 1, c);
    }
}

/// A chunk that is cut inside its window ends after its start and no later
/// than the window's end.
proof fn lemma_split_boundary_range(bytes: Seq<u8>, start: int, desired_end: int)
    requires
        start < desired_end,
    ensures
        start < split_boundary(bytes, start, desired_end) <= desired_end,
{
    lemma_last_pair_range(bytes, start, desired_end, NEWLINE, NEWLINE);
    lemma_last_pair_range(bytes, start, desired_end, FULL_STOP, SPACE);
    lemma_last_byte_range(bytes, start, desired_end, SPACE);
}

} // verus!
