//! A conversion as a state machine.
//!
//! The machine decides and its caller acts. `poll` says what to do next:
//! run the encoder on one time range at one quality, or stop. `encoded`
//! takes the size that the encoder produced and says what became of it: the
//! chunk is accepted, the segment is cut in two, or its quality is lowered.
//! The machine never touches a file; it names the temporary file of each
//! encode and, at the end, the final name of each chunk. What it decides
//! it also tells, line by line, in a log that only grows.

use crate::convert::laws::lemma_encoded_keeps_wf;
use crate::convert::laws::lemma_poll_keeps_wf;
use crate::convert::laws::lemma_start_is_wf;
use crate::convert::laws::lemma_wf_parts;
use crate::encode::EncodeParams;
use crate::error::Error;
use crate::naming::chunk_path_for;
use crate::naming::chunk_path_spec;
use crate::naming::has_file_name;
use crate::naming::output_stem_from_args;
use crate::naming::temp_output_path;
use crate::naming::temp_path_spec;
use crate::naming::without_extension;
use crate::probe::VideoInfo;
use crate::progress::attempt_line;
use crate::progress::attempt_line_spec;
use crate::progress::degrade_line;
use crate::progress::degrade_line_spec;
use crate::progress::degraded_line;
use crate::progress::degraded_line_spec;
use crate::progress::fits_line;
use crate::progress::fits_line_spec;
use crate::progress::segment_line;
use crate::progress::segment_line_spec;
use crate::progress::split_line;
use crate::progress::split_line_spec;
use crate::schedule::decompose;
use crate::schedule::initial_segments;
use crate::schedule::tiles;
use crate::schedule::Segment;
use crate::strategy::encode_params_spec;
use crate::strategy::fit_step_spec;
use crate::strategy::initial_settings;
use crate::strategy::standard_tuning;
use crate::strategy::FitState;
use crate::strategy::FitVerdict;
use crate::strategy::InitialParams;
use crate::strategy::Tuning;
use crate::strategy::TuningView;
use std::collections::VecDeque;
use vstd::prelude::*;

pub mod laws;

verus! {

/// The budget of a chunk unless another is asked for: ten megabytes.
pub const DEFAULT_MAX_SIZE_BYTES: u64 = 10 * 1024 * 1024;

/// The width that a conversion starts from unless another is asked for.
pub const DEFAULT_WIDTH: u32 = 480;

/// The frame rate that a conversion starts from unless another is asked for.
pub const DEFAULT_FPS: u32 = 15;

/// The palette size that a conversion starts from unless another is asked for.
pub const DEFAULT_COLORS: u32 = 256;

/// The length of a chunk unless another is asked for: three seconds.
pub const DEFAULT_CHUNK_MS: u64 = 3000;

/// What the user asks for. Sizes are in bytes, times in milliseconds.
#[derive(Debug, Clone, PartialEq, Eq)]
pub struct ConvertOptions {
    pub input: String,
    pub output: Option<String>,
    pub max_size_bytes: u64,
    pub width: u32,
    pub fps: u32,
    pub colors: u32,
    pub chunk_ms: u64,
}

/// A segment whose encode fits the budget, and the temporary file that
/// holds it.
#[derive(Debug, Clone, Copy, PartialEq, Eq, Structural)]
pub struct FittedChunk {
    pub segment: Segment,
    pub temp_index: u128,
    pub size: u64,
}

/// The segment that is being encoded.
#[derive(Debug, Clone, Copy, PartialEq, Eq, Structural)]
pub enum Pending {
    /// The first encode of the segment, at the quality the conversion starts from.
    Full { segment: Segment, temp_index: u128 },
    /// The segment is too short to split; its quality is being lowered.
    Degrading { segment: Segment, temp_index: u128, fit: FitState },
}

/// One run of the encoder: what to render and into which temporary file.
/// `attempt` is zero for the first encode of a segment and counts from one
/// while its quality is lowered.
#[derive(Debug, Clone, Copy, PartialEq, Eq, Structural)]
pub struct EncodeRequest {
    pub temp_index: u128,
    pub attempt: u32,
    pub params: EncodeParams,
}

/// What the caller does next.
#[derive(Debug, Clone, Copy, PartialEq, Eq, Structural)]
pub enum Action {
    /// Run the encoder and hand the size of its output to `encoded`.
    Encode { request: EncodeRequest },
    /// Every segment is fitted: rename the temporary files.
    Finish,
    /// A segment could not be fitted: the conversion has failed.
    GiveUp { attempts: u32 },
}

/// What became of an encode.
#[derive(Debug, Clone, Copy, PartialEq, Eq, Structural)]
pub enum Verdict {
    /// It fits; its temporary file is kept.
    Accepted { chunk: FittedChunk },
    /// Too large: delete the temporary file `discard`; the segment was cut
    /// in two and both halves come next.
    Split { discard: u128, first: Segment, second: Segment },
    /// Too large and too short to split: delete the temporary file
    /// `discard`; the segment is encoded again at a lower quality.
    Degrade { discard: u128 },
    /// Too large at a lowered quality; the segment is encoded again, one
    /// notch lower, into the same temporary file.
    Retry,
    /// Too large and nothing is left to try: the conversion has failed.
    Unreachable { attempts: u32 },
    /// No encode was asked for; nothing changes.
    Idle,
}

/// A final name for a temporary file.
#[derive(Debug, Clone, PartialEq, Eq)]
pub struct Rename {
    pub from: String,
    pub to: String,
}

/// A conversion in progress.
pub struct Conversion {
    tuning: Tuning,
    target_bytes: u64,
    initial: InitialParams,
    stem: String,
    total_ms: u64,
    queue: VecDeque<Segment>,
    chunks: Vec<FittedChunk>,
    next_temp: u128,
    pending: Option<Pending>,
    failed: Option<u32>,
    told: Vec<String>,
}

/// A conversion as contracts see it.
pub struct ConversionView {
    /// The bounds that the conversion works within.
    pub tuning: TuningView,
    /// The budget of each chunk.
    pub target_bytes: u64,
    /// The quality that every segment is first encoded at.
    pub initial: InitialParams,
    /// What the files are named after.
    pub stem: Seq<char>,
    /// The length of the video.
    pub total_ms: u64,
    /// The segments that wait, the earliest first.
    pub queue: Seq<Segment>,
    /// The chunks that were accepted, the earliest first.
    pub chunks: Seq<FittedChunk>,
    /// The number of the next temporary file.
    pub next_temp: u128,
    /// The segment that is being encoded.
    pub pending: Option<Pending>,
    /// The attempts made on the segment that could not be fitted.
    pub failed: Option<u32>,
    /// The lines that were told so far, the earliest first.
    pub told: Seq<Seq<char>>,
}

impl Pending {
    pub open spec fn segment(self) -> Segment {
        match self {
            Pending::Full { segment, .. } => segment,
            Pending::Degrading { segment, .. } => segment,
        }
    }

    pub open spec fn temp_index(self) -> u128 {
        match self {
            Pending::Full { temp_index, .. } => temp_index,
            Pending::Degrading { temp_index, .. } => temp_index,
        }
    }
}

/// Why the options cannot be worked with, if they cannot.
pub open spec fn options_error(options: &ConvertOptions) -> Option<Seq<char>> {
    if options.max_size_bytes == 0 {
        Some("--max-size-mb must be positive"@)
    } else if options.chunk_ms == 0 {
        Some("--chunk-secs must be positive"@)
    } else {
        None
    }
}

/// Why no conversion of this video can start with these options, if none can.
pub open spec fn start_error(options: &ConvertOptions, info: &VideoInfo) -> Option<Seq<char>> {
    if options_error(options) is Some {
        options_error(options)
    } else if options.output is None && !has_file_name(options.input@) {
        Some("input has no file stem"@)
    } else if info.duration_ms == 0 {
        Some("video has zero duration"@)
    } else {
        None
    }
}

/// The stem that the results of a conversion are named after.
pub open spec fn stem_of(options: &ConvertOptions) -> Seq<char> {
    match options.output {
        Some(path) => without_extension(path@),
        None => without_extension(options.input@),
    }
}

/// The quality that a conversion starts from: what the user asks for, but
/// no wider than the video and no more frames than it has.
pub open spec fn starting_quality(options: &ConvertOptions, info: &VideoInfo) -> InitialParams {
    InitialParams {
        width: if options.width < info.width {
            options.width
        } else {
            info.width
        },
        fps: if options.fps < info.framerate.ceil_spec() {
            options.fps
        } else {
            info.framerate.ceil_spec() as u32
        },
        colors: options.colors,
    }
}

/// The state that a conversion starts in: the whole video waits, cut into
/// chunks.
pub open spec fn start_spec(options: &ConvertOptions, info: &VideoInfo, tuning: TuningView)
    -> ConversionView {
    ConversionView {
        tuning,
        target_bytes: options.max_size_bytes,
        initial: starting_quality(options, info),
        stem: stem_of(options),
        total_ms: info.duration_ms,
        queue: initial_segments(info.duration_ms, options.chunk_ms),
        chunks: Seq::empty(),
        next_temp: 0,
        pending: None,
        failed: None,
        told: Seq::empty(),
    }
}

/// The work that one waiting segment can still cause, at most.
pub open spec fn unit_work(tuning: TuningView, segment: Segment) -> int {
    (tuning.max_attempts + 5) * segment.duration_ms - 2
}

/// The work that the waiting segments can still cause, at most.
pub open spec fn queue_work(tuning: TuningView, queue: Seq<Segment>) -> int
    decreases queue.len(),
{
    if queue.len() == 0 {
        0
    } else {
        unit_work(tuning, queue[0]) + queue_work(tuning, queue.drop_first())
    }
}

impl ConversionView {
    /// The segments of the accepted chunks.
    pub open spec fn chunk_segments(self) -> Seq<Segment> {
        self.chunks.map_values(|chunk: FittedChunk| chunk.segment)
    }

    /// The segment that is being encoded, if any.
    pub open spec fn pending_segments(self) -> Seq<Segment> {
        match self.pending {
            Some(pending) => seq![pending.segment()],
            None => Seq::empty(),
        }
    }

    /// Every segment of the conversion in order of time: those of the
    /// accepted chunks, the one that is being encoded, those that wait.
    pub open spec fn timeline(self) -> Seq<Segment> {
        self.chunk_segments() + self.pending_segments() + self.queue
    }

    /// The work that the segment being encoded can still cause, at most.
    pub open spec fn pending_work(self) -> int {
        match self.pending {
            None => 0,
            Some(Pending::Full { segment, .. }) => unit_work(self.tuning, segment) - 1,
            Some(Pending::Degrading { fit, .. }) => self.tuning.max_attempts - fit.attempts,
        }
    }

    /// A bound on the work that is left: on the encodes that are still to
    /// come, plus the temporary files that are still to be named.
    pub open spec fn work_bound(self) -> int {
        if self.failed is Some {
            0
        } else {
            queue_work(self.tuning, self.queue) + self.pending_work()
        }
    }

    /// A bound on the work of the whole conversion.
    pub open spec fn work_limit(self) -> int {
        (self.tuning.max_attempts + 5) * self.total_ms
    }

    /// Whether the conversion has come to a good end.
    pub open spec fn finished(self) -> bool {
        self.failed is None && self.pending is None && self.queue.len() == 0
    }

    /// What holds of every state that a conversion goes through.
    pub open spec fn wf(self) -> bool {
        &&& self.tuning.wf()
        &&& tiles(self.timeline(), 0, self.total_ms as nat)
        &&& forall|i: int|
            0 <= i < self.chunks.len() ==> (#[trigger] self.chunks[i]).size <= self.target_bytes
        &&& forall|i: int|
            0 <= i < self.chunks.len() ==> (#[trigger] self.chunks[i]).temp_index < self.next_temp
        &&& forall|i: int, j: int|
            0 <= i < j < self.chunks.len() ==> (#[trigger] self.chunks[i]).temp_index < (
            #[trigger] self.chunks[j]).temp_index
        &&& self.pending matches Some(pending) ==> {
            &&& pending.temp_index() < self.next_temp
            &&& forall|i: int|
                0 <= i < self.chunks.len() ==> (#[trigger] self.chunks[i]).temp_index
                    < pending.temp_index()
            &&& pending matches Pending::Degrading { fit, .. } ==> fit.wf(self.tuning)
        }
        &&& self.failed is Some ==> self.pending is Some && self.pending->0 is Degrading
        &&& self.next_temp + self.work_bound() <= self.work_limit()
    }

    /// The first encode of a segment.
    pub open spec fn full_request(self, segment: Segment, temp_index: u128) -> EncodeRequest {
        EncodeRequest {
            temp_index,
            attempt: 0,
            params: EncodeParams {
                width: self.initial.width,
                fps: self.initial.fps,
                colors: self.initial.colors,
                start_ms: segment.start_ms,
                duration_ms: segment.duration_ms,
            },
        }
    }

    /// The encode that is asked for while a segment is pending.
    pub open spec fn request(self, pending: Pending) -> EncodeRequest {
        match pending {
            Pending::Full { segment, temp_index } => self.full_request(segment, temp_index),
            Pending::Degrading { segment, temp_index, fit } => EncodeRequest {
                temp_index,
                attempt: (fit.attempts + 1) as u32,
                params: encode_params_spec(
                    self.tuning,
                    fit.settings,
                    segment.start_ms,
                    segment.duration_ms,
                ),
            },
        }
    }

    /// The state after `poll`, and what `poll` answers. A conversion that
    /// has failed gives up. A pending segment is encoded. Otherwise the
    /// earliest waiting segment becomes the pending one, gets the next
    /// temporary file and is told of; where none waits, the conversion is
    /// finished.
    pub open spec fn poll(self) -> (ConversionView, Action) {
        if self.failed is Some {
            (self, Action::GiveUp { attempts: self.failed->0 })
        } else if self.pending is Some {
            (self, Action::Encode { request: self.request(self.pending->0) })
        } else if self.queue.len() == 0 {
            (self, Action::Finish)
        } else {
            let pending = Pending::Full { segment: self.queue[0], temp_index: self.next_temp };
            (
                ConversionView {
                    queue: self.queue.drop_first(),
                    pending: Some(pending),
                    next_temp: (self.next_temp + 1) as u128,
                    told: self.told.push(segment_line_spec(self.queue[0])),
                    ..self
                },
                Action::Encode { request: self.request(pending) },
            )
        }
    }

    /// The state after the pending segment was accepted at `size` bytes.
    pub open spec fn accept(self, pending: Pending, size: u64) -> (ConversionView, Verdict) {
        let chunk = FittedChunk {
            segment: pending.segment(),
            temp_index: pending.temp_index(),
            size,
        };
        let line = match pending {
            Pending::Full { .. } => fits_line_spec(size),
            Pending::Degrading { .. } => degraded_line_spec(size),
        };
        (
            ConversionView {
                chunks: self.chunks.push(chunk),
                pending: None,
                told: self.told.push(line),
                ..self
            },
            Verdict::Accepted { chunk },
        )
    }

    /// What is told before the encode that the fitter asks for next.
    pub open spec fn attempt_line(self, segment: Segment, fit: FitState) -> Seq<char> {
        attempt_line_spec(
            (fit.attempts + 1) as nat,
            encode_params_spec(self.tuning, fit.settings, segment.start_ms, segment.duration_ms),
        )
    }

    /// The state after `encoded`, and what `encoded` answers.
    ///
    /// An encode within the budget is accepted. A first encode that is too
    /// large has its segment cut in two where the segment is longer than
    /// the shortest that may be split, and both halves go to the front of
    /// the queue, the first half first; a shorter segment gets a new
    /// temporary file and is handed to the fitter. A later encode that is
    /// too large goes by the fitter's rule. Each decision is told, and so
    /// is each encode that the fitter asks for.
    pub open spec fn encoded(self, size: u64) -> (ConversionView, Verdict) {
        if self.failed is Some {
            (self, Verdict::Idle)
        } else {
            match self.pending {
                None => (self, Verdict::Idle),
                Some(Pending::Full { segment, temp_index }) => {
                    if size <= self.target_bytes {
                        self.accept(Pending::Full { segment, temp_index }, size)
                    } else if segment.duration_ms > self.tuning.min_split_ms {
                        (
                            ConversionView {
                                queue: seq![segment.halves_spec().0, segment.halves_spec().1]
                                    + self.queue,
                                pending: None,
                                told: self.told.push(split_line_spec(size, segment)),
                                ..self
                            },
                            Verdict::Split {
                                discard: temp_index,
                                first: segment.halves_spec().0,
                                second: segment.halves_spec().1,
                            },
                        )
                    } else {
                        (
                            ConversionView {
                                pending: Some(
                                    Pending::Degrading {
                                        segment,
                                        temp_index: self.next_temp,
                                        fit: FitState {
                                            settings: initial_settings(self.tuning, self.initial),
                                            attempts: 0,
                                        },
                                    },
                                ),
                                next_temp: (self.next_temp + 1) as u128,
                                told: self.told.push(degrade_line_spec(size)).push(
                                    self.attempt_line(
                                        segment,
                                        FitState {
                                            settings: initial_settings(self.tuning, self.initial),
                                            attempts: 0,
                                        },
                                    ),
                                ),
                                ..self
                            },
                            Verdict::Degrade { discard: temp_index },
                        )
                    }
                },
                Some(Pending::Degrading { segment, temp_index, fit }) => match fit_step_spec(
                    self.tuning,
                    self.target_bytes,
                    fit,
                    size,
                ) {
                    FitVerdict::Fits { size } => self.accept(
                        Pending::Degrading { segment, temp_index, fit },
                        size,
                    ),
                    FitVerdict::Retry { next } => (
                        ConversionView {
                            pending: Some(Pending::Degrading { segment, temp_index, fit: next }),
                            told: self.told.push(self.attempt_line(segment, next)),
                            ..self
                        },
                        Verdict::Retry,
                    ),
                    FitVerdict::Unreachable { attempts } => (
                        ConversionView { failed: Some(attempts), ..self },
                        Verdict::Unreachable { attempts },
                    ),
                },
            }
        }
    }

    /// Whether the conversion goes on: whether `poll` asks for an encode.
    pub open spec fn running(self) -> bool {
        self.poll().1 is Encode
    }

    /// The state after one round: a poll, and the encode that it asks for
    /// coming out at `size` bytes.
    pub open spec fn round(self, size: u64) -> ConversionView {
        self.poll().0.encoded(size).0
    }

    /// The state after one round for each of the sizes.
    pub open spec fn rounds(self, sizes: Seq<u64>) -> ConversionView
        decreases sizes.len(),
    {
        if sizes.len() == 0 {
            self
        } else {
            self.round(sizes[0]).rounds(sizes.drop_first())
        }
    }

    /// The temporary file of each accepted chunk and its final name, in
    /// order of time.
    pub open spec fn renames(self) -> Seq<(Seq<char>, Seq<char>)> {
        Seq::new(
            self.chunks.len(),
            |i: int|
                (
                    temp_path_spec(self.stem, self.chunks[i].temp_index as nat),
                    chunk_path_spec(self.stem, i as nat, self.chunks.len()),
                ),
        )
    }
}

impl View for Conversion {
    type V = ConversionView;

    closed spec fn view(&self) -> ConversionView {
        ConversionView {
            tuning: self.tuning@,
            target_bytes: self.target_bytes,
            initial: self.initial,
            stem: self.stem@,
            total_ms: self.total_ms,
            queue: self.queue@,
            chunks: self.chunks@,
            next_temp: self.next_temp,
            pending: self.pending,
            failed: self.failed,
            told: self.told@.map_values(|line: String| line@),
        }
    }
}

impl ConvertOptions {
    /// The options for an input with everything else as it is unless
    /// asked for otherwise.
    pub fn new(input: String) -> (options: ConvertOptions)
        ensures
            options.input == input,
            options.output is None,
            options.max_size_bytes == DEFAULT_MAX_SIZE_BYTES,
            options.width == DEFAULT_WIDTH,
            options.fps == DEFAULT_FPS,
            options.colors == DEFAULT_COLORS,
            options.chunk_ms == DEFAULT_CHUNK_MS,
    {
        ConvertOptions {
            input,
            output: None,
            max_size_bytes: DEFAULT_MAX_SIZE_BYTES,
            width: DEFAULT_WIDTH,
            fps: DEFAULT_FPS,
            colors: DEFAULT_COLORS,
            chunk_ms: DEFAULT_CHUNK_MS,
        }
    }
}

/// Refuses options that no conversion can work with: a budget of zero
/// bytes, or a chunk length of zero.
pub fn validate_options(options: &ConvertOptions) -> (checked: Result<(), Error>)
    ensures
        match checked {
            Ok(_) => options_error(options) is None,
            Err(error) => {
                &&& error matches Error::InvalidInput(reason)
                &&& Some(reason@) == options_error(options)
            },
        },
{
    if options.max_size_bytes == 0 {
        Err(Error::InvalidInput(String::from_str("--max-size-mb must be positive")))
    } else if options.chunk_ms == 0 {
        Err(Error::InvalidInput(String::from_str("--chunk-secs must be positive")))
    } else {
        Ok(())
    }
}

impl Conversion {
    /// Starts a conversion within the standard bounds.
    pub fn new(options: &ConvertOptions, info: &VideoInfo) -> (started: Result<Conversion, Error>)
        ensures
            match started {
                Ok(conversion) => {
                    &&& start_error(options, info) is None
                    &&& conversion@ == start_spec(options, info, standard_tuning())
                    &&& conversion@.wf()
                },
                Err(error) => {
                    &&& error matches Error::InvalidInput(reason)
                    &&& Some(reason@) == start_error(options, info)
                },
            },
    {
        Conversion::with_tuning(options, info, Tuning::default())
    }

    /// Starts a conversion: checks the options, derives the stem, and cuts
    /// the video into the segments that wait. Nothing is encoded yet.
    pub fn with_tuning(options: &ConvertOptions, info: &VideoInfo, tuning: Tuning) -> (started:
        Result<Conversion, Error>)
        requires
            tuning@.wf(),
        ensures
            match started {
                Ok(conversion) => {
                    &&& start_error(options, info) is None
                    &&& conversion@ == start_spec(options, info, tuning@)
                    &&& conversion@.wf()
                },
                Err(error) => {
                    &&& error matches Error::InvalidInput(reason)
                    &&& Some(reason@) == start_error(options, info)
                },
            },
    {
        match validate_options(options) {
            Err(error) => {
                return Err(error);
            },
            Ok(_) => {},
        }
        let output: Option<&str> = match &options.output {
            Some(path) => Some(path.as_str()),
            None => None,
        };
        let stem = match output_stem_from_args(options.input.as_str(), output) {
            Ok(stem) => stem,
            Err(error) => {
                return Err(error);
            },
        };
        if info.duration_ms == 0 {
            return Err(Error::InvalidInput(String::from_str("video has zero duration")));
        }
        let frames: u32 = info.framerate.ceil();
        let initial = InitialParams {
            width: if options.width < info.width {
                options.width
            } else {
                info.width
            },
            fps: if options.fps < frames {
                options.fps
            } else {
                frames
            },
            colors: options.colors,
        };
        let queue = decompose(info.duration_ms, options.chunk_ms);
        proof {
            lemma_start_is_wf(options, info, tuning@);
        }
        let conversion = Conversion {
            tuning,
            target_bytes: options.max_size_bytes,
            initial,
            stem,
            total_ms: info.duration_ms,
            queue,
            chunks: Vec::new(),
            next_temp: 0,
            pending: None,
            failed: None,
            told: Vec::new(),
        };
        assert(conversion@.told =~= Seq::<Seq<char>>::empty());
        Ok(conversion)
    }

    /// Adds a line to what was told; nothing else changes.
    fn tell(&mut self, line: String)
        ensures
            final(self)@ == (ConversionView { told: old(self)@.told.push(line@), ..old(self)@ }),
    {
        self.told.push(line);
        assert(self@.told =~= old(self)@.told.push(line@));
    }

    /// Tells of the encode that the fitter asks for next.
    fn tell_attempt(&mut self, segment: &Segment, fit: &FitState)
        requires
            fit.wf(old(self)@.tuning),
        ensures
            final(self)@ == (ConversionView {
                told: old(self)@.told.push(old(self)@.attempt_line(*segment, *fit)),
                ..old(self)@
            }),
    {
        let params = self.tuning.encode_params(
            &fit.settings,
            segment.start_ms,
            segment.duration_ms,
        );
        self.tell(attempt_line(fit.attempts + 1, &params));
    }

    /// The encode that is asked for while `pending` is the pending segment.
    fn request(&self, pending: Pending) -> (request: EncodeRequest)
        requires
            pending matches Pending::Degrading { fit, .. } ==> fit.wf(self@.tuning),
        ensures
            request == self@.request(pending),
    {
        match pending {
            Pending::Full { segment, temp_index } => EncodeRequest {
                temp_index,
                attempt: 0,
                params: EncodeParams {
                    width: self.initial.width,
                    fps: self.initial.fps,
                    colors: self.initial.colors,
                    start_ms: segment.start_ms,
                    duration_ms: segment.duration_ms,
                },
            },
            Pending::Degrading { segment, temp_index, fit } => EncodeRequest {
                temp_index,
                attempt: fit.attempts + 1,
                params: self.tuning.encode_params(
                    &fit.settings,
                    segment.start_ms,
                    segment.duration_ms,
                ),
            },
        }
    }

    /// What to do next. Asks for the same encode again until `encoded`
    /// has taken its size.
    pub fn poll(&mut self) -> (action: Action)
        requires
            old(self)@.wf(),
        ensures
            final(self)@.wf(),
            (final(self)@, action) == old(self)@.poll(),
            final(self)@.work_bound() <= old(self)@.work_bound(),
    {
        proof {
            lemma_poll_keeps_wf(self@);
            lemma_wf_parts(self@);
        }
        if let Some(attempts) = self.failed {
            return Action::GiveUp { attempts };
        }
        if let Some(pending) = self.pending {
            return Action::Encode { request: self.request(pending) };
        }
        match self.queue.pop_front() {
            None => Action::Finish,
            Some(segment) => {
                let temp_index: u128 = self.next_temp;
                let pending = Pending::Full { segment, temp_index };
                self.next_temp = temp_index + 1;
                self.pending = Some(pending);
                self.tell(segment_line(&segment));
                assert(self.queue@ =~= old(self).queue@.drop_first());
                Action::Encode { request: self.request(pending) }
            },
        }
    }

    /// Takes the size of the encode that `poll` asked for and decides what
    /// becomes of it. Unless the conversion fails here, less work is left
    /// afterwards than before.
    pub fn encoded(&mut self, size: u64) -> (verdict: Verdict)
        requires
            old(self)@.wf(),
        ensures
            final(self)@.wf(),
            (final(self)@, verdict) == old(self)@.encoded(size),
            old(self)@.failed is None && old(self)@.pending is Some ==> final(self)@.failed is Some
                || final(self)@.work_bound() < old(self)@.work_bound(),
    {
        proof {
            lemma_encoded_keeps_wf(self@, size);
            lemma_wf_parts(self@);
        }
        if self.failed.is_some() {
            return Verdict::Idle;
        }
        match self.pending {
            None => Verdict::Idle,
            Some(Pending::Full { segment, temp_index }) => {
                if size <= self.target_bytes {
                    let chunk = FittedChunk { segment, temp_index, size };
                    self.chunks.push(chunk);
                    self.pending = None;
                    self.tell(fits_line(size));
                    Verdict::Accepted { chunk }
                } else if segment.duration_ms > self.tuning.min_split_ms {
                    let (first, second) = segment.halves();
                    self.queue.push_front(second);
                    self.queue.push_front(first);
                    self.pending = None;
                    self.tell(split_line(size, &segment));
                    assert(self.queue@ =~= seq![first, second] + old(self).queue@);
                    Verdict::Split { discard: temp_index, first, second }
                } else {
                    let fit = self.tuning.fit_start(&self.initial);
                    let fresh: u128 = self.next_temp;
                    self.next_temp = fresh + 1;
                    self.pending = Some(Pending::Degrading { segment, temp_index: fresh, fit });
                    self.tell(degrade_line(size));
                    self.tell_attempt(&segment, &fit);
                    Verdict::Degrade { discard: temp_index }
                }
            },
            Some(Pending::Degrading { segment, temp_index, fit }) => {
                match self.tuning.fit_step(self.target_bytes, &fit, size) {
                    FitVerdict::Fits { size } => {
                        let chunk = FittedChunk { segment, temp_index, size };
                        self.chunks.push(chunk);
                        self.pending = None;
                        self.tell(degraded_line(size));
                        Verdict::Accepted { chunk }
                    },
                    FitVerdict::Retry { next } => {
                        self.pending = Some(Pending::Degrading { segment, temp_index, fit: next });
                        self.tell_attempt(&segment, &next);
                        Verdict::Retry
                    },
                    FitVerdict::Unreachable { attempts } => {
                        self.failed = Some(attempts);
                        Verdict::Unreachable { attempts }
                    },
                }
            },
        }
    }

    /// Whether every segment is fitted.
    pub fn is_finished(&self) -> (finished: bool)
        ensures
            finished == self@.finished(),
    {
        self.failed.is_none() && self.pending.is_none() && self.queue.len() == 0
    }

    /// The failure that ended the conversion, if one did.
    pub fn failure(&self) -> (failure: Option<Error>)
        ensures
            match failure {
                Some(error) => self@.failed is Some && error == Error::TargetUnreachable(
                    self@.failed->0,
                ),
                None => self@.failed is None,
            },
    {
        match self.failed {
            Some(attempts) => Some(Error::TargetUnreachable(attempts)),
            None => None,
        }
    }

    /// The chunks that were accepted so far, the earliest first.
    pub fn chunks(&self) -> (chunks: &Vec<FittedChunk>)
        ensures
            chunks@ == self@.chunks,
    {
        &self.chunks
    }

    /// The lines that were told so far, the earliest first.
    pub fn told(&self) -> (told: &Vec<String>)
        ensures
            told@.map_values(|line: String| line@) == self@.told,
    {
        &self.told
    }

    /// How many segments wait.
    pub fn waiting(&self) -> (count: usize)
        ensures
            count == self@.queue.len(),
    {
        self.queue.len()
    }

    /// The budget of each chunk, in bytes.
    pub fn target_bytes(&self) -> (bytes: u64)
        ensures
            bytes == self@.target_bytes,
    {
        self.target_bytes
    }

    /// The quality that every segment is first encoded at.
    pub fn initial(&self) -> (initial: InitialParams)
        ensures
            initial == self@.initial,
    {
        self.initial
    }

    /// What the files are named after.
    pub fn stem(&self) -> (stem: &str)
        ensures
            stem@ == self@.stem,
    {
        self.stem.as_str()
    }

    /// The path of the temporary file with the number `temp_index`.
    pub fn temp_path(&self, temp_index: u128) -> (path: String)
        ensures
            path@ == temp_path_spec(self@.stem, temp_index as nat),
    {
        temp_output_path(self.stem.as_str(), temp_index)
    }

    /// The temporary file of each accepted chunk and its final name, in
    /// order of time, once every segment is fitted; `None` before that,
    /// and after a failure. The final names are numbered only where there
    /// is more than one chunk.
    pub fn renames(&self) -> (renames: Option<Vec<Rename>>)
        ensures
            match renames {
                Some(renames) => {
                    &&& self@.finished()
                    &&& renames@.len() == self@.renames().len()
                    &&& forall|i: int|
                        0 <= i < renames@.len() ==> (#[trigger] renames@[i]).from@
                            == self@.renames()[i].0 && renames@[i].to@ == self@.renames()[i].1
                },
                None => !self@.finished(),
            },
    {
        if !self.is_finished() {
            return None;
        }
        let count: usize = self.chunks.len();
        let mut renames: Vec<Rename> = Vec::new();
        let mut i: usize = 0;
        while i < count
            invariant
                count == self.chunks@.len(),
                i <= count,
                renames@.len() == i,
                forall|k: int|
                    0 <= k < i ==> (#[trigger] renames@[k]).from@ == self@.renames()[k].0
                        && renames@[k].to@ == self@.renames()[k].1,
            decreases count - i,
        {
            let chunk = self.chunks[i];
            let from = temp_output_path(self.stem.as_str(), chunk.temp_index);
            let to = chunk_path_for(self.stem.as_str(), i as u64, count as u64);
            renames.push(Rename { from, to });
            i += 1;
        }
        Some(renames)
    }
}

} // verus!
