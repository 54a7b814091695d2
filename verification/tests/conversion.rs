use clippr::convert::{DEFAULT_CHUNK_MS, DEFAULT_COLORS, DEFAULT_FPS, DEFAULT_MAX_SIZE_BYTES, DEFAULT_WIDTH};
use clippr::schedule::decompose;
use clippr::{
    validate_options, Action, Conversion, ConvertOptions, EncodeParams, EncodeRequest, Error,
    FittedChunk, FrameRate, InitialParams, Segment, Tuning, Verdict, VideoInfo,
};

fn options(chunk_ms: u64) -> ConvertOptions {
    ConvertOptions {
        input: "clips/video.mp4".to_string(),
        output: None,
        max_size_bytes: 1000,
        width: 480,
        fps: 15,
        colors: 256,
        chunk_ms,
    }
}

fn video(duration_ms: u64) -> VideoInfo {
    VideoInfo {
        width: 1920,
        height: 1080,
        duration_ms,
        framerate: FrameRate { numerator: 30, denominator: 1 },
    }
}

fn segment(start_ms: u64, duration_ms: u64) -> Segment {
    Segment { start_ms, duration_ms }
}

fn refusal(started: Result<Conversion, Error>) -> String {
    match started {
        Err(Error::InvalidInput(reason)) => reason,
        Err(other) => panic!("{:?}", other),
        Ok(_) => panic!("the conversion started"),
    }
}

/// Runs a conversion to its end against an encoder that is a function of
/// the request, and records every request and verdict.
fn run(
    conversion: &mut Conversion,
    size_of: impl Fn(&EncodeRequest) -> u64,
) -> (Vec<EncodeRequest>, Vec<Verdict>, Action) {
    let mut requests = Vec::new();
    let mut verdicts = Vec::new();
    loop {
        match conversion.poll() {
            Action::Encode { request } => {
                requests.push(request);
                verdicts.push(conversion.encoded(size_of(&request)));
                assert!(requests.len() < 10_000);
            }
            last => return (requests, verdicts, last),
        }
    }
}

#[test]
fn seven_seconds_in_chunks_of_three_give_three_chunks() {
    let mut conversion = Conversion::new(&options(3000), &video(7000)).unwrap();
    assert_eq!(conversion.waiting(), 3);
    assert!(!conversion.is_finished());
    let (requests, verdicts, last) = run(&mut conversion, |_| 1000);
    assert_eq!(last, Action::Finish);
    assert!(conversion.is_finished());
    assert_eq!(conversion.failure(), None);
    let ranges: Vec<(u64, u64)> =
        requests.iter().map(|r| (r.params.start_ms, r.params.duration_ms)).collect();
    assert_eq!(ranges, vec![(0, 3000), (3000, 3000), (6000, 1000)]);
    for (index, request) in requests.iter().enumerate() {
        assert_eq!(request.temp_index, index as u128);
        assert_eq!(request.attempt, 0);
        assert_eq!((request.params.width, request.params.fps, request.params.colors), (480, 15, 256));
    }
    assert_eq!(
        verdicts,
        vec![
            Verdict::Accepted { chunk: FittedChunk { segment: segment(0, 3000), temp_index: 0, size: 1000 } },
            Verdict::Accepted { chunk: FittedChunk { segment: segment(3000, 3000), temp_index: 1, size: 1000 } },
            Verdict::Accepted { chunk: FittedChunk { segment: segment(6000, 1000), temp_index: 2, size: 1000 } },
        ]
    );
    assert_eq!(conversion.chunks().len(), 3);
    let renames = conversion.renames().unwrap();
    let pairs: Vec<(&str, &str)> =
        renames.iter().map(|r| (r.from.as_str(), r.to.as_str())).collect();
    assert_eq!(
        pairs,
        vec![
            ("clips/video.tmp_000000.gif", "clips/video_001.gif"),
            ("clips/video.tmp_000001.gif", "clips/video_002.gif"),
            ("clips/video.tmp_000002.gif", "clips/video_003.gif"),
        ]
    );
}

#[test]
fn short_video_gives_one_chunk_without_a_number() {
    let mut with_output = options(3000);
    with_output.output = Some("out/result.gif".to_string());
    let mut conversion = Conversion::new(&with_output, &video(2500)).unwrap();
    assert_eq!(conversion.stem(), "out/result");
    let (requests, _, last) = run(&mut conversion, |_| 10);
    assert_eq!(last, Action::Finish);
    assert_eq!(requests.len(), 1);
    assert_eq!((requests[0].params.start_ms, requests[0].params.duration_ms), (0, 2500));
    let renames = conversion.renames().unwrap();
    assert_eq!(renames.len(), 1);
    assert_eq!(renames[0].from, "out/result.tmp_000000.gif");
    assert_eq!(renames[0].to, "out/result.gif");
    assert_eq!(conversion.temp_path(0), "out/result.tmp_000000.gif");
}

#[test]
fn short_oversized_segment_goes_to_the_fitter() {
    // a segment of three seconds, with splitting allowed only above five
    let tuning = Tuning { min_split_ms: 5000, ..Tuning::default() };
    let mut conversion = Conversion::with_tuning(&options(3000), &video(3000), tuning).unwrap();
    // only the third encode at a lowered quality fits
    let (requests, verdicts, last) = run(&mut conversion, |request| {
        if request.attempt == 3 {
            900
        } else {
            4000
        }
    });
    assert_eq!(last, Action::Finish);
    assert_eq!(
        verdicts,
        vec![
            Verdict::Degrade { discard: 0 },
            Verdict::Retry,
            Verdict::Retry,
            Verdict::Accepted {
                chunk: FittedChunk { segment: segment(0, 3000), temp_index: 1, size: 900 }
            },
        ]
    );
    let seen: Vec<(u128, u32, u32, u32, u32)> = requests
        .iter()
        .map(|r| (r.temp_index, r.attempt, r.params.width, r.params.fps, r.params.colors))
        .collect();
    // ratio = 1000 / 4000 * 0.9 = 0.225: 480 * sqrt(0.225) = 227.6 -> 240,
    // then 15 * 0.225 = 3.3 -> 8
    assert_eq!(
        seen,
        vec![(0, 0, 480, 15, 256), (1, 1, 480, 15, 256), (1, 2, 240, 15, 256), (1, 3, 240, 8, 256)]
    );
    for request in &requests {
        assert_eq!((request.params.start_ms, request.params.duration_ms), (0, 3000));
    }
    let renames = conversion.renames().unwrap();
    assert_eq!(renames.len(), 1);
    assert_eq!(renames[0].from, "clips/video.tmp_000001.gif");
    assert_eq!(renames[0].to, "clips/video.gif");
}

#[test]
fn first_degraded_attempt_that_fits_is_accepted() {
    let tuning = Tuning { min_split_ms: 5000, ..Tuning::default() };
    let mut conversion = Conversion::with_tuning(&options(3000), &video(3000), tuning).unwrap();
    let (requests, verdicts, last) =
        run(&mut conversion, |request| if request.attempt == 0 { 1001 } else { 1000 });
    assert_eq!(last, Action::Finish);
    assert_eq!(requests.len(), 2);
    assert_eq!(verdicts[0], Verdict::Degrade { discard: 0 });
    assert_eq!(
        verdicts[1],
        Verdict::Accepted {
            chunk: FittedChunk { segment: segment(0, 3000), temp_index: 1, size: 1000 }
        }
    );
}

#[test]
fn five_attempts_that_do_not_fit_fail_the_conversion() {
    let tuning = Tuning { min_split_ms: 5000, ..Tuning::default() };
    let mut conversion = Conversion::with_tuning(&options(3000), &video(6000), tuning).unwrap();
    let (requests, verdicts, last) = run(&mut conversion, |_| 1_000_000);
    assert_eq!(last, Action::GiveUp { attempts: 5 });
    assert_eq!(requests.len(), 6);
    assert_eq!(
        verdicts,
        vec![
            Verdict::Degrade { discard: 0 },
            Verdict::Retry,
            Verdict::Retry,
            Verdict::Retry,
            Verdict::Retry,
            Verdict::Unreachable { attempts: 5 },
        ]
    );
    let colors: Vec<u32> = requests.iter().map(|r| r.params.colors).collect();
    assert_eq!(colors, vec![256, 256, 256, 256, 128, 64]);
    let failure = conversion.failure().unwrap();
    assert_eq!(failure, Error::TargetUnreachable(5));
    assert!(failure.message().contains("5 attempts"));
    // the conversion stays failed: the second segment is never asked for
    assert_eq!(conversion.poll(), Action::GiveUp { attempts: 5 });
    assert_eq!(conversion.encoded(1), Verdict::Idle);
    assert_eq!(conversion.poll(), Action::GiveUp { attempts: 5 });
    assert!(!conversion.is_finished());
    assert_eq!(conversion.waiting(), 1);
    assert!(conversion.chunks().is_empty());
    assert_eq!(conversion.renames(), None);
}

#[test]
fn oversized_segment_is_cut_in_two_ahead_of_later_segments() {
    let mut conversion = Conversion::new(&options(4000), &video(8000)).unwrap();
    assert_eq!(conversion.waiting(), 2);
    // the first four seconds do not fit as a whole, everything else does
    let (requests, verdicts, last) = run(&mut conversion, |request| {
        if request.params.start_ms == 0 && request.params.duration_ms == 4000 {
            5000
        } else {
            1000
        }
    });
    assert_eq!(last, Action::Finish);
    let ranges: Vec<(u64, u64)> =
        requests.iter().map(|r| (r.params.start_ms, r.params.duration_ms)).collect();
    assert_eq!(ranges, vec![(0, 4000), (0, 2000), (2000, 2000), (4000, 4000)]);
    assert_eq!(
        verdicts[0],
        Verdict::Split { discard: 0, first: segment(0, 2000), second: segment(2000, 2000) }
    );
    for request in &requests {
        assert_eq!(request.attempt, 0);
        assert_eq!((request.params.width, request.params.fps, request.params.colors), (480, 15, 256));
    }
    let temps: Vec<u128> = conversion.chunks().iter().map(|c| c.temp_index).collect();
    assert_eq!(temps, vec![1, 2, 3]);
    let names: Vec<String> =
        conversion.renames().unwrap().into_iter().map(|r| r.to).collect();
    assert_eq!(names, vec!["clips/video_001.gif", "clips/video_002.gif", "clips/video_003.gif"]);
}

#[test]
fn splitting_goes_on_until_the_segment_is_short() {
    // anything longer than half a second is too large
    let mut conversion = Conversion::new(&options(3000), &video(3000)).unwrap();
    let (requests, verdicts, last) =
        run(&mut conversion, |request| if request.params.duration_ms > 500 { 2000 } else { 500 });
    assert_eq!(last, Action::Finish);
    let ranges: Vec<(u64, u64)> =
        requests.iter().map(|r| (r.params.start_ms, r.params.duration_ms)).collect();
    assert_eq!(
        ranges,
        vec![
            (0, 3000),
            (0, 1500),
            (0, 750),
            (0, 375),
            (375, 375),
            (750, 750),
            (750, 375),
            (1125, 375),
            (1500, 1500),
            (1500, 750),
            (1500, 375),
            (1875, 375),
            (2250, 750),
            (2250, 375),
            (2625, 375),
        ]
    );
    assert_eq!(verdicts.iter().filter(|v| matches!(v, Verdict::Split { .. })).count(), 7);
    let chunks = conversion.chunks();
    assert_eq!(chunks.len(), 8);
    let mut cursor = 0;
    for chunk in chunks.iter() {
        assert_eq!(chunk.segment.start_ms, cursor);
        assert!(chunk.size <= 1000);
        cursor += chunk.segment.duration_ms;
    }
    assert_eq!(cursor, 3000);
    let names: Vec<String> =
        conversion.renames().unwrap().into_iter().map(|r| r.to).collect();
    assert_eq!(names[0], "clips/video_001.gif");
    assert_eq!(names[7], "clips/video_008.gif");
}

#[test]
fn odd_lengths_are_cut_without_losing_a_millisecond() {
    let tuning = Tuning { min_split_ms: 1, ..Tuning::default() };
    let mut conversion = Conversion::with_tuning(&options(5), &video(5), tuning).unwrap();
    // nothing longer than one millisecond fits
    let (requests, _, last) =
        run(&mut conversion, |request| if request.params.duration_ms > 1 { 2000 } else { 1 });
    assert_eq!(last, Action::Finish);
    let ranges: Vec<(u64, u64)> =
        requests.iter().map(|r| (r.params.start_ms, r.params.duration_ms)).collect();
    assert_eq!(
        ranges,
        vec![(0, 5), (0, 2), (0, 1), (1, 1), (2, 3), (2, 1), (3, 2), (3, 1), (4, 1)]
    );
    let covered: Vec<(u64, u64)> = conversion
        .chunks()
        .iter()
        .map(|c| (c.segment.start_ms, c.segment.duration_ms))
        .collect();
    assert_eq!(covered, vec![(0, 1), (1, 1), (2, 1), (3, 1), (4, 1)]);
}

#[test]
fn segment_of_exactly_the_shortest_length_is_degraded() {
    let mut conversion = Conversion::new(&options(500), &video(501)).unwrap();
    let (requests, verdicts, last) =
        run(&mut conversion, |request| if request.attempt == 0 { 1001 } else { 1 });
    assert_eq!(last, Action::Finish);
    let seen: Vec<(u64, u64, u32, u128)> = requests
        .iter()
        .map(|r| (r.params.start_ms, r.params.duration_ms, r.attempt, r.temp_index))
        .collect();
    assert_eq!(seen, vec![(0, 500, 0, 0), (0, 500, 1, 1), (500, 1, 0, 2), (500, 1, 1, 3)]);
    assert_eq!(verdicts[0], Verdict::Degrade { discard: 0 });
    assert_eq!(verdicts[2], Verdict::Degrade { discard: 2 });
    let mut conversion = Conversion::new(&options(501), &video(501)).unwrap();
    let (_, verdicts, _) =
        run(&mut conversion, |request| if request.params.duration_ms > 500 { 1001 } else { 1 });
    assert_eq!(
        verdicts[0],
        Verdict::Split { discard: 0, first: segment(0, 250), second: segment(250, 251) }
    );
}

#[test]
fn degrading_starts_from_the_nearest_palette_size() {
    let tuning = Tuning { min_split_ms: 5000, ..Tuning::default() };
    let mut asked = options(3000);
    asked.colors = 200;
    let mut conversion = Conversion::with_tuning(&asked, &video(3000), tuning).unwrap();
    let (requests, _, _) =
        run(&mut conversion, |request| if request.attempt == 0 { 1001 } else { 1 });
    let colors: Vec<u32> = requests.iter().map(|r| r.params.colors).collect();
    assert_eq!(colors, vec![200, 128]);
}

#[test]
fn final_names_are_given_only_at_the_end() {
    let mut conversion = Conversion::new(&options(3000), &video(6000)).unwrap();
    assert_eq!(conversion.renames(), None);
    assert!(matches!(conversion.poll(), Action::Encode { .. }));
    assert_eq!(conversion.renames(), None);
    assert!(matches!(conversion.encoded(1), Verdict::Accepted { .. }));
    assert_eq!(conversion.renames(), None);
    assert!(matches!(conversion.poll(), Action::Encode { .. }));
    assert!(matches!(conversion.encoded(1), Verdict::Accepted { .. }));
    assert_eq!(conversion.renames().map(|renames| renames.len()), Some(2));
    assert_eq!(conversion.poll(), Action::Finish);
    assert_eq!(conversion.renames().map(|renames| renames.len()), Some(2));
}

#[test]
fn polling_again_asks_for_the_same_encode() {
    let mut conversion = Conversion::new(&options(3000), &video(7000)).unwrap();
    let first = conversion.poll();
    assert_eq!(
        first,
        Action::Encode {
            request: EncodeRequest {
                temp_index: 0,
                attempt: 0,
                params: EncodeParams {
                    width: 480,
                    fps: 15,
                    colors: 256,
                    start_ms: 0,
                    duration_ms: 3000
                },
            }
        }
    );
    assert_eq!(conversion.poll(), first);
    assert_eq!(conversion.waiting(), 2);
    assert!(matches!(conversion.encoded(1), Verdict::Accepted { .. }));
    assert_eq!(conversion.encoded(1), Verdict::Idle);
    assert_eq!(conversion.chunks().len(), 1);
    assert_ne!(conversion.poll(), first);
}

#[test]
fn reporting_before_polling_changes_nothing() {
    let mut conversion = Conversion::new(&options(3000), &video(7000)).unwrap();
    assert_eq!(conversion.encoded(5), Verdict::Idle);
    assert_eq!(conversion.waiting(), 3);
    assert!(conversion.chunks().is_empty());
}

#[test]
fn starting_quality_is_capped_by_the_video() {
    let mut asked = options(3000);
    asked.width = 4000;
    asked.fps = 60;
    asked.colors = 99;
    let info = VideoInfo {
        width: 1280,
        height: 720,
        duration_ms: 1000,
        framerate: FrameRate { numerator: 30000, denominator: 1001 },
    };
    let conversion = Conversion::new(&asked, &info).unwrap();
    assert_eq!(conversion.initial(), InitialParams { width: 1280, fps: 30, colors: 99 });
    assert_eq!(conversion.target_bytes(), 1000);
    let conversion = Conversion::new(&options(3000), &info).unwrap();
    assert_eq!(conversion.initial(), InitialParams { width: 480, fps: 15, colors: 256 });
}

#[test]
fn options_that_cannot_be_worked_with_are_refused() {
    let mut bad = options(3000);
    bad.max_size_bytes = 0;
    bad.chunk_ms = 0;
    assert_eq!(
        validate_options(&bad),
        Err(Error::InvalidInput("--max-size-mb must be positive".to_string()))
    );
    assert_eq!(refusal(Conversion::new(&bad, &video(0))), "--max-size-mb must be positive");
    bad.max_size_bytes = 1;
    assert_eq!(
        validate_options(&bad),
        Err(Error::InvalidInput("--chunk-secs must be positive".to_string()))
    );
    bad.input = "..".to_string();
    assert_eq!(refusal(Conversion::new(&bad, &video(0))), "--chunk-secs must be positive");
    bad.chunk_ms = 1;
    assert_eq!(validate_options(&bad), Ok(()));
    assert_eq!(refusal(Conversion::new(&bad, &video(0))), "input has no file stem");
    bad.output = Some("out".to_string());
    assert_eq!(refusal(Conversion::new(&bad, &video(0))), "video has zero duration");
    assert!(Conversion::new(&bad, &video(1)).is_ok());
    assert_eq!(validate_options(&options(3000)), Ok(()));
}

#[test]
fn options_start_from_the_defaults() {
    let fresh = ConvertOptions::new("video.mp4".to_string());
    assert_eq!(fresh.input, "video.mp4");
    assert_eq!(fresh.output, None);
    assert_eq!(fresh.max_size_bytes, 10 * 1024 * 1024);
    assert_eq!((fresh.width, fresh.fps, fresh.colors, fresh.chunk_ms), (480, 15, 256, 3000));
    assert_eq!(
        (DEFAULT_MAX_SIZE_BYTES, DEFAULT_WIDTH, DEFAULT_FPS, DEFAULT_COLORS, DEFAULT_CHUNK_MS),
        (10485760, 480, 15, 256, 3000)
    );
}

#[test]
fn video_is_cut_into_chunks_with_a_shorter_last_one() {
    let cut = |duration, chunk| -> Vec<(u64, u64)> {
        decompose(duration, chunk).iter().map(|s| (s.start_ms, s.duration_ms)).collect()
    };
    assert_eq!(cut(7000, 3000), vec![(0, 3000), (3000, 3000), (6000, 1000)]);
    assert_eq!(cut(6000, 3000), vec![(0, 3000), (3000, 3000)]);
    assert_eq!(cut(1, 3000), vec![(0, 1)]);
    assert_eq!(cut(0, 3000), vec![]);
    assert_eq!(cut(3, 1), vec![(0, 1), (1, 1), (2, 1)]);
    assert_eq!(cut(u64::MAX, u64::MAX), vec![(0, u64::MAX)]);
    assert_eq!(cut(u64::MAX, u64::MAX - 1), vec![(0, u64::MAX - 1), (u64::MAX - 1, 1)]);
    assert_eq!(
        cut(u64::MAX, 1 << 63),
        vec![(0, 1 << 63), (1 << 63, (1 << 63) - 1)]
    );
}

#[test]
fn segment_is_cut_into_halves() {
    assert_eq!(segment(0, 4000).halves(), (segment(0, 2000), segment(2000, 2000)));
    assert_eq!(segment(1000, 751).halves(), (segment(1000, 375), segment(1375, 376)));
    assert_eq!(segment(7, 1).halves(), (segment(7, 0), segment(7, 1)));
    assert_eq!(
        segment(u64::MAX - 10, 10).halves(),
        (segment(u64::MAX - 10, 5), segment(u64::MAX - 5, 5))
    );
}

#[test]
fn same_sizes_give_the_same_run() {
    let size_of = |request: &EncodeRequest| {
        (request.params.duration_ms * 7 + request.params.start_ms) % 1900
    };
    let mut first = Conversion::new(&options(3000), &video(20_000)).unwrap();
    let mut second = Conversion::new(&options(3000), &video(20_000)).unwrap();
    let one = run(&mut first, size_of);
    let two = run(&mut second, size_of);
    assert_eq!(one, two);
    assert_eq!(first.chunks(), second.chunks());
    assert_eq!(first.renames(), second.renames());
}

#[test]
fn every_run_ends_and_covers_the_video() {
    // an encoder whose output is too large on every third request
    for duration in [1u64, 499, 500, 501, 2999, 3000, 3001, 10_000] {
        let mut conversion = Conversion::new(&options(3000), &video(duration)).unwrap();
        let counter = std::cell::Cell::new(0u64);
        let (_, verdicts, last) = run(&mut conversion, |_| {
            counter.set(counter.get() + 1);
            if counter.get() % 3 == 0 {
                1001
            } else {
                1000
            }
        });
        assert_eq!(last, Action::Finish);
        assert!(!verdicts.contains(&Verdict::Idle));
        let mut cursor = 0;
        let mut last_temp = None;
        for chunk in conversion.chunks().iter() {
            assert_eq!(chunk.segment.start_ms, cursor);
            assert!(chunk.segment.duration_ms > 0);
            assert!(chunk.size <= conversion.target_bytes());
            assert!(last_temp < Some(chunk.temp_index));
            last_temp = Some(chunk.temp_index);
            cursor += chunk.segment.duration_ms;
        }
        assert_eq!(cursor, duration);
    }
}
