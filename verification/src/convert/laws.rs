//! What holds of every conversion: the timeline stays tiled, every
//! accepted chunk is within the budget, no two files share a path, and
//! every conversion ends.

use crate::convert::queue_work;
use crate::convert::start_error;
use crate::convert::start_spec;
use crate::convert::unit_work;
use crate::convert::ConversionView;
use crate::convert::ConvertOptions;
use crate::convert::Pending;
use crate::convert::Verdict;

use crate::naming::lemma_chunk_paths_differ;
use crate::naming::lemma_temp_is_no_chunk;
use crate::naming::lemma_temp_paths_differ;
use crate::probe::VideoInfo;
use crate::schedule::lemma_halves_tile;
use crate::schedule::lemma_initial_segments_tile;
use crate::schedule::lemma_tiles_concat;
use crate::schedule::lemma_tiles_in_order;
use crate::schedule::tiles;
use crate::schedule::total_length;
use crate::schedule::Segment;
use crate::strategy::fit_step_spec;
use crate::strategy::lemma_fit_can_start;
use crate::strategy::lemma_fit_is_bounded;
use crate::strategy::FitVerdict;
use crate::strategy::TuningView;
use vstd::prelude::*;

verus! {

/// The first part of a tiling ends where its segments' lengths add up to,
/// and the rest tiles from there.
pub proof fn lemma_tiles_split(front: Seq<Segment>, back: Seq<Segment>, from: nat, to: nat)
    requires
        tiles(front + back, from, to),
    ensures
        tiles(front, from, from + total_length(front)),
        tiles(back, from + total_length(front), to),
    decreases front.len(),
{
    if front.len() == 0 {
        assert(front + back =~= back);
    } else {
        assert((front + back).drop_first() =~= front.drop_first() + back);
        assert((front + back)[0] == front[0]);
        lemma_tiles_split(front.drop_first(), back, front[0].end(), to);
    }
}

/// Waiting segments that tile a range can cause no more work than the
/// length of the range allows.
pub proof fn lemma_queue_work(tuning: TuningView, queue: Seq<Segment>, from: nat, to: nat)
    requires
        tiles(queue, from, to),
    ensures
        queue_work(tuning, queue) + 2 * queue.len() == (tuning.max_attempts + 5) * (to - from),
        queue_work(tuning, queue) >= 0,
        queue.len() > 0 ==> queue_work(tuning, queue) >= 3,
    decreases queue.len(),
{
    let scale = tuning.max_attempts + 5;
    if queue.len() == 0 {
        assert(scale * (to - from) == 0) by (nonlinear_arith)
            requires
                to - from == 0,
        ;
    } else {
        let rest = queue.drop_first();
        lemma_queue_work(tuning, rest, queue[0].end(), to);
        let length = queue[0].duration_ms as int;
        assert(scale * (to - from) == scale * length + scale * (to - queue[0].end()))
            by (nonlinear_arith)
            requires
                to - from == length + (to - queue[0].end()),
        ;
        assert(scale * length >= 5) by (nonlinear_arith)
            requires
                scale >= 5,
                length >= 1,
        ;
    }
}

/// The whole of a conversion's work fits the counter of temporary files.
pub proof fn lemma_work_limit_fits(view: ConversionView)
    ensures
        0 <= view.work_limit() <= u128::MAX,
{
    assert(0 <= (view.tuning.max_attempts + 5) * view.total_ms <= 0x1_0000_0004
        * 0xFFFF_FFFF_FFFF_FFFF) by (nonlinear_arith)
        requires
            0 <= view.tuning.max_attempts <= 0xFFFF_FFFF,
            0 <= view.total_ms <= 0xFFFF_FFFF_FFFF_FFFF,
    ;
}

/// In a state that holds together, the parts of the timeline tile one
/// after the other, the work that is left is not negative, and a pending
/// segment always leaves some.
pub proof fn lemma_wf_parts(view: ConversionView)
    requires
        view.wf(),
    ensures
        ({
            let accepted = total_length(view.chunk_segments());
            let begun = accepted + total_length(view.pending_segments());
            &&& tiles(view.chunk_segments(), 0, accepted)
            &&& tiles(view.pending_segments(), accepted, begun)
            &&& tiles(view.queue, begun, view.total_ms as nat)
            &&& begun <= view.total_ms
        }),
        view.pending matches Some(pending) ==> pending.segment().duration_ms > 0
            && pending.segment().end() <= view.total_ms && pending.segment().start_ms
            == total_length(view.chunk_segments()),
        queue_work(view.tuning, view.queue) >= 0,
        view.queue.len() > 0 ==> queue_work(view.tuning, view.queue) >= 3,
        view.pending is Some ==> view.pending_work() >= 1,
        view.pending matches Some(Pending::Full { segment, .. }) ==> view.pending_work()
            == unit_work(view.tuning, segment) - 1 && view.pending_work()
            >= view.tuning.max_attempts + 2,
        view.pending_work() >= 0,
        view.work_bound() >= 0,
        view.next_temp <= view.work_limit() <= u128::MAX,
{
    let total = view.total_ms as nat;
    let front = view.chunk_segments() + view.pending_segments();
    lemma_tiles_split(front, view.queue, 0, total);
    lemma_tiles_split(view.chunk_segments(), view.pending_segments(), 0, total_length(front));
    let accepted = total_length(view.chunk_segments());
    lemma_tiles_in_order(view.queue, total_length(front), total);
    lemma_tiles_in_order(view.pending_segments(), accepted, total_length(front));
    lemma_queue_work(view.tuning, view.queue, total_length(front), total);
    lemma_work_limit_fits(view);
    match view.pending {
        Some(pending) => {
            let segment = pending.segment();
            assert(view.pending_segments()[0] == segment);
            assert((view.tuning.max_attempts + 5) * segment.duration_ms
                >= view.tuning.max_attempts + 5) by (nonlinear_arith)
                requires
                    view.tuning.max_attempts >= 0,
                    segment.duration_ms >= 1,
            ;
        },
        None => {},
    }
}

/// Polling keeps the state together and adds no work; taking up a
/// waiting segment uses up one unit of it.
pub proof fn lemma_poll_keeps_wf(view: ConversionView)
    requires
        view.wf(),
    ensures
        view.poll().0.wf(),
        view.poll().0.work_bound() <= view.work_bound(),
        view.poll().0.timeline() == view.timeline(),
        view.poll().0.chunks == view.chunks,
        view.poll().1 is Encode ==> view.poll().0.pending is Some,
        view.poll().1 is Finish <==> view.finished(),
        view.failed is None && view.pending is None && view.queue.len() > 0 ==> view.next_temp
            < u128::MAX && view.poll().0.work_bound() == view.work_bound() - 1,
{
    lemma_wf_parts(view);
    if view.failed is None && view.pending is None && view.queue.len() > 0 {
        let after = view.poll().0;
        assert(after.timeline() =~= view.timeline());
        assert(after.chunks == view.chunks);
    }
}

/// Cutting the pending segment in two keeps the timeline tiled.
proof fn lemma_split_tiles(view: ConversionView, segment: Segment)
    requires
        view.wf(),
        view.pending is Some,
        view.pending->0.segment() == segment,
        segment.duration_ms >= 2,
    ensures
        tiles(
            view.chunk_segments() + Seq::<Segment>::empty() + (seq![
                segment.halves_spec().0,
                segment.halves_spec().1,
            ] + view.queue),
            0,
            view.total_ms as nat,
        ),
        queue_work(view.tuning, seq![segment.halves_spec().0, segment.halves_spec().1] + view.queue)
            == queue_work(view.tuning, view.queue) + unit_work(view.tuning, segment) - 2,
{
    lemma_wf_parts(view);
    lemma_halves_tile(segment);
    let (first, second) = segment.halves_spec();
    let halves = seq![first, second];
    let accepted = total_length(view.chunk_segments());
    assert(view.pending_segments()[0] == segment);
    assert(view.pending_segments().drop_first() =~= Seq::<Segment>::empty());
    assert(total_length(view.pending_segments().drop_first()) == 0);
    assert(total_length(view.pending_segments()) == segment.duration_ms);
    lemma_tiles_concat(halves, view.queue, accepted, segment.end(), view.total_ms as nat);
    lemma_tiles_concat(
        view.chunk_segments(),
        halves + view.queue,
        0,
        accepted,
        view.total_ms as nat,
    );
    assert(view.chunk_segments() + Seq::<Segment>::empty() + (halves + view.queue)
        =~= view.chunk_segments() + (halves + view.queue));
    let longer = halves + view.queue;
    assert(longer[0] == first);
    assert(longer.drop_first() =~= seq![second] + view.queue);
    assert(longer.drop_first()[0] == second);
    assert(longer.drop_first().drop_first() =~= view.queue);
    assert(queue_work(view.tuning, longer.drop_first()) == unit_work(view.tuning, second)
        + queue_work(view.tuning, view.queue));
    assert(queue_work(view.tuning, longer) == unit_work(view.tuning, first) + queue_work(
        view.tuning,
        longer.drop_first(),
    ));
    let scale = view.tuning.max_attempts + 5;
    assert(scale * first.duration_ms + scale * second.duration_ms == scale * segment.duration_ms)
        by (nonlinear_arith)
        requires
            first.duration_ms + second.duration_ms == segment.duration_ms,
    ;
}

/// Every encode brings the conversion on. The state holds together
/// afterwards; where an encode was pending, the conversion has failed or
/// less work is left than before.
pub proof fn lemma_encoded_keeps_wf(view: ConversionView, size: u64)
    requires
        view.wf(),
    ensures
        view.encoded(size).0.wf(),
        view.failed is None && view.pending is Some ==> view.encoded(size).0.failed is Some
            || view.encoded(size).0.work_bound() < view.work_bound(),
        view.failed is Some || view.pending is None ==> view.encoded(size) == (view, Verdict::Idle),
{
    lemma_wf_parts(view);
    let (after, verdict) = view.encoded(size);
    if view.failed is None {
        match view.pending {
            None => {},
            Some(Pending::Full { segment, temp_index }) => {
                if size <= view.target_bytes {
                    lemma_accept_keeps_wf(view, size);
                } else if segment.duration_ms > view.tuning.min_split_ms {
                    lemma_split_tiles(view, segment);
                    assert(after.chunks == view.chunks);
                } else {
                    lemma_fit_can_start(view.tuning, view.initial);
                    assert(after.timeline() =~= view.timeline());
                    assert(after.chunks == view.chunks);
                }
            },
            Some(Pending::Degrading { segment, temp_index, fit }) => {
                lemma_fit_is_bounded(view.tuning, view.target_bytes, fit, size);
                match fit_step_spec(view.tuning, view.target_bytes, fit, size) {
                    FitVerdict::Fits { size } => {
                        lemma_accept_keeps_wf(view, size);
                    },
                    FitVerdict::Retry { next } => {
                        assert(after.timeline() =~= view.timeline());
                        assert(after.chunks == view.chunks);
                    },
                    FitVerdict::Unreachable { attempts } => {
                        assert(after.timeline() =~= view.timeline());
                        assert(after.chunks == view.chunks);
                    },
                }
            },
        }
    }
}

/// What was told stays told: a round only adds lines behind those
/// that are there.
pub proof fn lemma_told_only_grows(view: ConversionView, size: u64)
    ensures
        view.poll().0.told.len() >= view.told.len(),
        view.poll().0.told.take(view.told.len() as int) == view.told,
        view.encoded(size).0.told.len() >= view.told.len(),
        view.encoded(size).0.told.take(view.told.len() as int) == view.told,
        view.round(size).told.len() >= view.told.len(),
        view.round(size).told.take(view.told.len() as int) == view.told,
{
    let polled = view.poll().0;
    let after = polled.encoded(size).0;
    assert(polled.told.len() >= view.told.len() && polled.told.take(view.told.len() as int)
        =~= view.told);
    lemma_encoded_only_tells(view, size);
    lemma_encoded_only_tells(polled, size);
    assert(after.told.take(view.told.len() as int) =~= after.told.take(
        polled.told.len() as int,
    ).take(view.told.len() as int));
}

proof fn lemma_encoded_only_tells(view: ConversionView, size: u64)
    ensures
        view.encoded(size).0.told.len() >= view.told.len(),
        view.encoded(size).0.told.take(view.told.len() as int) == view.told,
{
    let after = view.encoded(size).0;
    assert(after.told.len() >= view.told.len() && after.told.take(view.told.len() as int)
        =~= view.told);
}

/// Temporary files are numbered in rising order and no number is given
/// twice: a round leaves the pending segment its temporary file, or the
/// file that is pending afterwards has a number that was not given
/// before; and every number given so far stays below the next one.
pub proof fn lemma_temp_numbers_are_fresh(view: ConversionView, size: u64)
    requires
        view.wf(),
    ensures
        ({
            let polled = view.poll().0;
            let after = view.round(size);
            &&& view.next_temp <= polled.next_temp <= after.next_temp
            &&& polled.pending is Some ==> {
                &&& polled.pending->0.temp_index() < polled.next_temp
                &&& polled.pending == view.pending || polled.pending->0.temp_index()
                    == view.next_temp
            }
            &&& after.pending is Some ==> {
                &&& after.pending->0.temp_index() < after.next_temp
                &&& polled.pending is Some
                &&& polled.pending->0.temp_index() == after.pending->0.temp_index()
                    || after.pending->0.temp_index() == polled.next_temp
            }
            &&& forall|i: int|
                0 <= i < after.chunks.len() ==> (#[trigger] after.chunks[i]).temp_index
                    < after.next_temp
        }),
{
    lemma_poll_keeps_wf(view);
    lemma_encoded_keeps_wf(view.poll().0, size);
    lemma_wf_parts(view);
    lemma_wf_parts(view.poll().0);
}

/// A round brings the conversion on. The state holds together
/// afterwards. While the conversion goes on, a round fails it or leaves
/// less work than before; once it has ended, a round changes nothing.
pub proof fn lemma_round_makes_progress(view: ConversionView, size: u64)
    requires
        view.wf(),
    ensures
        view.round(size).wf(),
        view.running() ==> view.round(size).failed is Some || view.round(size).work_bound()
            < view.work_bound(),
        !view.running() ==> view.round(size) == view,
        view.round(size).failed is Some ==> !view.round(size).running(),
{
    lemma_poll_keeps_wf(view);
    lemma_encoded_keeps_wf(view.poll().0, size);
}

/// Every conversion ends, whatever sizes the encoder produces: while the
/// conversion goes on, the rounds made and the work left are together no
/// more than the work that was left at first. So after more rounds than
/// that it has ended, finished or failed.
pub proof fn lemma_conversion_ends(view: ConversionView, sizes: Seq<u64>)
    requires
        view.wf(),
    ensures
        view.rounds(sizes).wf(),
        view.rounds(sizes).running() ==> sizes.len() + view.rounds(sizes).work_bound()
            <= view.work_bound(),
        sizes.len() > view.work_bound() ==> !view.rounds(sizes).running(),
        !view.running() ==> view.rounds(sizes) == view,
    decreases sizes.len(),
{
    if sizes.len() > 0 {
        let next = view.round(sizes[0]);
        lemma_round_makes_progress(view, sizes[0]);
        lemma_conversion_ends(next, sizes.drop_first());
        lemma_wf_parts(view.rounds(sizes));
    } else {
        lemma_wf_parts(view);
    }
}

/// Accepting the pending segment keeps the state together and uses up
/// the work that was left for the segment.
proof fn lemma_accept_keeps_wf(view: ConversionView, size: u64)
    requires
        view.wf(),
        view.failed is None,
        view.pending is Some,
        size <= view.target_bytes,
    ensures
        view.accept(view.pending->0, size).0.wf(),
        view.accept(view.pending->0, size).0.work_bound() < view.work_bound(),
{
    lemma_wf_parts(view);
    let pending = view.pending->0;
    let after = view.accept(pending, size).0;
    assert(after.chunk_segments() =~= view.chunk_segments().push(pending.segment()));
    assert(after.timeline() =~= view.timeline());
    assert forall|i: int| 0 <= i < after.chunks.len() implies (#[trigger] after.chunks[i]).size
        <= after.target_bytes by {
        if i < view.chunks.len() {
            assert(after.chunks[i] == view.chunks[i]);
        }
    }
    assert forall|i: int| 0 <= i < after.chunks.len() implies (
    #[trigger] after.chunks[i]).temp_index < after.next_temp by {
        if i < view.chunks.len() {
            assert(after.chunks[i] == view.chunks[i]);
        }
    }
    assert forall|i: int, j: int| 0 <= i < j < after.chunks.len() implies (
    #[trigger] after.chunks[i]).temp_index < (#[trigger] after.chunks[j]).temp_index by {
        assert(after.chunks[i] == view.chunks[i]);
        if j < view.chunks.len() {
            assert(after.chunks[j] == view.chunks[j]);
        }
    }
}

/// A conversion starts in a state that holds together.
pub proof fn lemma_start_is_wf(options: &ConvertOptions, info: &VideoInfo, tuning: TuningView)
    requires
        tuning.wf(),
        start_error(options, info) is None,
    ensures
        start_spec(options, info, tuning).wf(),
{
    let view = start_spec(options, info, tuning);
    lemma_initial_segments_tile(info.duration_ms, options.chunk_ms);
    assert(view.timeline() =~= view.queue);
    lemma_queue_work(tuning, view.queue, 0, info.duration_ms as nat);
}

/// At a good end the accepted chunks cover the whole video in order of
/// time, with no gap and no overlap, and each is within the budget.
pub proof fn lemma_finished_covers_video(view: ConversionView)
    requires
        view.wf(),
        view.finished(),
    ensures
        tiles(view.chunk_segments(), 0, view.total_ms as nat),
        forall|i: int|
            0 <= i < view.chunks.len() ==> (#[trigger] view.chunks[i]).size <= view.target_bytes,
{
    assert(view.timeline() =~= view.chunk_segments());
}

/// No two files of a conversion share a path: the final names differ
/// from one another, the temporary files differ from one another, and no
/// temporary file has a final name.
pub proof fn lemma_renames_never_collide(view: ConversionView, i: int, j: int)
    requires
        view.wf(),
        0 <= i < view.chunks.len(),
        0 <= j < view.chunks.len(),
    ensures
        view.renames()[i].0 != view.renames()[j].1,
        i != j ==> view.renames()[i].0 != view.renames()[j].0,
        i != j ==> view.renames()[i].1 != view.renames()[j].1,
{
    let count = view.chunks.len();
    lemma_temp_is_no_chunk(view.stem, view.chunks[i].temp_index as nat, j as nat, count);
    if i != j {
        if i < j {
            assert(view.chunks[i].temp_index < view.chunks[j].temp_index);
        } else {
            assert(view.chunks[j].temp_index < view.chunks[i].temp_index);
        }
        lemma_temp_paths_differ(
            view.stem,
            view.chunks[i].temp_index as nat,
            view.chunks[j].temp_index as nat,
        );
        lemma_chunk_paths_differ(view.stem, i as nat, j as nat, count);
    }
}

} // verus!
