//! Time ranges of a video: how the whole length is cut into segments, and
//! how a segment is cut in two.

use std::collections::VecDeque;
use vstd::arithmetic::div_mod::lemma_fundamental_div_mod;
use vstd::arithmetic::div_mod::lemma_mod_pos_bound;
use vstd::prelude::*;

verus! {

/// The time range from `start_ms` up to, not including,
/// `start_ms + duration_ms`, in milliseconds.
#[derive(Debug, Clone, Copy, PartialEq, Eq, Structural)]
pub struct Segment {
    pub start_ms: u64,
    pub duration_ms: u64,
}

impl Segment {
    /// Where the segment ends.
    pub open spec fn end(&self) -> nat {
        (self.start_ms + self.duration_ms) as nat
    }

    /// The first and the second half of the segment. The first half is
    /// the shorter one where the length is odd.
    pub open spec fn halves_spec(&self) -> (Segment, Segment) {
        let half = self.duration_ms / 2;
        (
            Segment { start_ms: self.start_ms, duration_ms: half },
            Segment {
                start_ms: (self.start_ms + half) as u64,
                duration_ms: (self.duration_ms - half) as u64,
            },
        )
    }

    /// The first and the second half of the segment.
    pub fn halves(&self) -> (parts: (Segment, Segment))
        requires
            self.end() <= u64::MAX,
        ensures
            parts == self.halves_spec(),
    {
        let half: u64 = self.duration_ms / 2;
        (
            Segment { start_ms: self.start_ms, duration_ms: half },
            Segment { start_ms: self.start_ms + half, duration_ms: self.duration_ms - half },
        )
    }
}

/// Whether the segments follow one another from `from` to `to` with no
/// gap, no overlap and none of them empty.
pub open spec fn tiles(segments: Seq<Segment>, from: nat, to: nat) -> bool
    decreases segments.len(),
{
    if segments.len() == 0 {
        from == to
    } else {
        &&& segments[0].start_ms == from
        &&& segments[0].duration_ms > 0
        &&& tiles(segments.drop_first(), segments[0].end(), to)
    }
}

/// Into how many segments a length is cut: the length over the chunk
/// length, rounded up.
pub open spec fn chunk_count(duration_ms: nat, chunk_ms: nat) -> nat {
    ((duration_ms + chunk_ms - 1) / (chunk_ms as int)) as nat
}

/// The segments that a conversion starts with: one chunk length after
/// another, the last one as long as what is left of the video.
pub open spec fn initial_segments(duration_ms: u64, chunk_ms: u64) -> Seq<Segment> {
    Seq::new(
        chunk_count(duration_ms as nat, chunk_ms as nat),
        |i: int|
            Segment {
                start_ms: (i * chunk_ms) as u64,
                duration_ms: if duration_ms - i * chunk_ms < chunk_ms {
                    (duration_ms - i * chunk_ms) as u64
                } else {
                    chunk_ms
                },
            },
    )
}

/// The two halves of a segment of two milliseconds or more tile it, and
/// each is shorter than the segment.
pub proof fn lemma_halves_tile(segment: Segment)
    requires
        segment.duration_ms >= 2,
        segment.end() <= u64::MAX,
    ensures
        tiles(
            seq![segment.halves_spec().0, segment.halves_spec().1],
            segment.start_ms as nat,
            segment.end(),
        ),
        0 < segment.halves_spec().0.duration_ms < segment.duration_ms,
        0 < segment.halves_spec().1.duration_ms < segment.duration_ms,
        segment.halves_spec().0.duration_ms + segment.halves_spec().1.duration_ms
            == segment.duration_ms,
{
    let (first, second) = segment.halves_spec();
    let both = seq![first, second];
    assert(both.drop_first() =~= seq![second]);
    assert(seq![second].drop_first() =~= Seq::<Segment>::empty());
    assert(tiles(seq![second].drop_first(), segment.end(), segment.end()));
    assert(tiles(seq![second], second.start_ms as nat, segment.end()));
}

/// Tiling puts two rows of segments together where the second starts at
/// the end of the first.
pub proof fn lemma_tiles_concat(
    front: Seq<Segment>,
    back: Seq<Segment>,
    from: nat,
    middle: nat,
    to: nat,
)
    requires
        tiles(front, from, middle),
        tiles(back, middle, to),
    ensures
        tiles(front + back, from, to),
    decreases front.len(),
{
    if front.len() == 0 {
        assert(front + back =~= back);
    } else {
        lemma_tiles_concat(front.drop_first(), back, front[0].end(), middle, to);
        assert((front + back).drop_first() =~= front.drop_first() + back);
    }
}

/// Segments that tile a range lie within it, in order of time, and their
/// lengths add up to its length.
pub proof fn lemma_tiles_in_order(segments: Seq<Segment>, from: nat, to: nat)
    requires
        tiles(segments, from, to),
    ensures
        from <= to,
        segments.len() > 0 ==> from < to,
        forall|i: int|
            0 <= i < segments.len() ==> from <= (#[trigger] segments[i]).start_ms
                && segments[i].end() <= to && segments[i].duration_ms > 0,
        forall|i: int, j: int|
            0 <= i < j < segments.len() ==> (#[trigger] segments[i]).end()
                <= (#[trigger] segments[j]).start_ms,
        total_length(segments) == to - from,
    decreases segments.len(),
{
    if segments.len() > 0 {
        let rest = segments.drop_first();
        lemma_tiles_in_order(rest, segments[0].end(), to);
        assert forall|i: int| 0 <= i < segments.len() implies from <= (
        #[trigger] segments[i]).start_ms && segments[i].end() <= to && segments[i].duration_ms
            > 0 by {
            if i > 0 {
                assert(segments[i] == rest[i - 1]);
            }
        }
        assert forall|i: int, j: int| 0 <= i < j < segments.len() implies (
        #[trigger] segments[i]).end() <= (#[trigger] segments[j]).start_ms by {
            assert(segments[j] == rest[j - 1]);
            if i > 0 {
                assert(segments[i] == rest[i - 1]);
            }
        }
    }
}

/// The lengths of the segments, added up.
pub open spec fn total_length(segments: Seq<Segment>) -> nat
    decreases segments.len(),
{
    if segments.len() == 0 {
        0
    } else {
        segments[0].duration_ms as nat + total_length(segments.drop_first())
    }
}

/// A position is that of a segment exactly when the segment starts
/// before the end of the video.
proof fn lemma_count_bounds(duration: nat, chunk: nat, i: nat)
    requires
        chunk > 0,
    ensures
        i < chunk_count(duration, chunk) <==> i * chunk < duration,
{
    let padded = (duration + chunk - 1) as int;
    let count = padded / (chunk as int);
    lemma_fundamental_div_mod(padded, chunk as int);
    lemma_mod_pos_bound(padded, chunk as int);
    let rest = padded % (chunk as int);
    assert(padded == (chunk as int) * count + rest);
    assert(0 <= rest < chunk);
    if (i as int) < count {
        assert(i * chunk < duration) by (nonlinear_arith)
            requires
                i + 1 <= count,
                chunk > 0,
                duration + chunk - 1 == chunk * count + rest,
                0 <= rest < chunk,
        ;
    } else {
        assert(i * chunk >= duration) by (nonlinear_arith)
            requires
                i >= count,
                chunk > 0,
                duration + chunk - 1 == chunk * count + rest,
                0 <= rest < chunk,
        ;
    }
}

/// What is left of the initial segments from position `k` on tiles what
/// is left of the video.
proof fn lemma_initial_tail_tiles(duration_ms: u64, chunk_ms: u64, k: nat)
    requires
        chunk_ms > 0,
        k <= chunk_count(duration_ms as nat, chunk_ms as nat),
    ensures
        ({
            let tail = initial_segments(duration_ms, chunk_ms).skip(k as int);
            let from = if k * chunk_ms < duration_ms {
                (k * chunk_ms) as nat
            } else {
                duration_ms as nat
            };
            tiles(tail, from, duration_ms as nat)
        }),
    decreases chunk_count(duration_ms as nat, chunk_ms as nat) - k,
{
    let all = initial_segments(duration_ms, chunk_ms);
    let count = chunk_count(duration_ms as nat, chunk_ms as nat);
    let tail = all.skip(k as int);
    lemma_count_bounds(duration_ms as nat, chunk_ms as nat, k);
    if k < count {
        lemma_initial_tail_tiles(duration_ms, chunk_ms, k + 1);
        lemma_count_bounds(duration_ms as nat, chunk_ms as nat, k + 1);
        assert(tail.drop_first() =~= all.skip(k as int + 1));
        assert(tail[0] == all[k as int]);
        assert((k + 1) * chunk_ms == k * chunk_ms + chunk_ms) by (nonlinear_arith);
    }
}

/// The initial segments tile the whole video.
pub proof fn lemma_initial_segments_tile(duration_ms: u64, chunk_ms: u64)
    requires
        chunk_ms > 0,
    ensures
        tiles(initial_segments(duration_ms, chunk_ms), 0, duration_ms as nat),
{
    lemma_initial_tail_tiles(duration_ms, chunk_ms, 0);
    assert(initial_segments(duration_ms, chunk_ms).skip(0) =~= initial_segments(
        duration_ms,
        chunk_ms,
    ));
    assert(0 * chunk_ms == 0) by (nonlinear_arith);
}

/// Cuts the whole length of a video into segments of the chunk length;
/// the last one is as long as what is left.
pub fn decompose(duration_ms: u64, chunk_ms: u64) -> (segments: VecDeque<Segment>)
    requires
        chunk_ms > 0,
    ensures
        segments@ == initial_segments(duration_ms, chunk_ms),
{
    let mut segments: VecDeque<Segment> = VecDeque::new();
    let mut start: u64 = 0;
    let ghost mut k: nat = 0;
    let ghost all = initial_segments(duration_ms, chunk_ms);
    let ghost count = chunk_count(duration_ms as nat, chunk_ms as nat);
    proof {
        lemma_count_bounds(duration_ms as nat, chunk_ms as nat, 0);
        assert(0 * chunk_ms == 0) by (nonlinear_arith);
    }
    while start < duration_ms
        invariant
            chunk_ms > 0,
            all == initial_segments(duration_ms, chunk_ms),
            count == chunk_count(duration_ms as nat, chunk_ms as nat),
            start <= duration_ms,
            k <= count,
            start < duration_ms ==> start == k * chunk_ms,
            start == duration_ms ==> k == count,
            segments@ == all.take(k as int),
        decreases duration_ms - start,
    {
        let left: u64 = duration_ms - start;
        let length: u64 = if left < chunk_ms {
            left
        } else {
            chunk_ms
        };
        proof {
            lemma_count_bounds(duration_ms as nat, chunk_ms as nat, k);
            lemma_count_bounds(duration_ms as nat, chunk_ms as nat, k + 1);
            assert((k + 1) * chunk_ms == k * chunk_ms + chunk_ms) by (nonlinear_arith);
            assert(all[k as int] == Segment { start_ms: start, duration_ms: length });
            assert(all.take(k as int + 1) =~= all.take(k as int).push(all[k as int]));
        }
        segments.push_back(Segment { start_ms: start, duration_ms: length });
        start = start + length;
        proof {
            k = k + 1;
        }
    }
    assert(all.take(k as int) =~= all);
    segments
}

} // verus!
