use clippr::progress::{
    attempt_line, degrade_line, degraded_line, done_lines, fits_line, input_line, segment_line,
    split_line,
};
use clippr::{Conversion, ConvertOptions, EncodeParams, FrameRate, Segment, Tuning, VideoInfo};

fn info(duration_ms: u64, numerator: u64, denominator: u64) -> VideoInfo {
    VideoInfo { width: 1920, height: 1080, duration_ms, framerate: FrameRate { numerator, denominator } }
}

#[test]
fn input_is_told_with_size_rate_and_length() {
    assert_eq!(input_line(&info(7000, 30, 1)), "input: 1920x1080, 30.0fps, 7.0s");
    assert_eq!(input_line(&info(7033, 30000, 1001)), "input: 1920x1080, 30.0fps, 7.0s");
    assert_eq!(input_line(&info(12_345, 2997, 100)), "input: 1920x1080, 30.0fps, 12.3s");
    assert_eq!(input_line(&info(950, 25, 2)), "input: 1920x1080, 12.5fps, 1.0s");
    assert_eq!(input_line(&info(49, 1, 3)), "input: 1920x1080, 0.3fps, 0.0s");
    assert_eq!(input_line(&info(50, 30, 0)), "input: 1920x1080, 0.0fps, 0.1s");
    assert_eq!(
        input_line(&VideoInfo {
            width: 0,
            height: u32::MAX,
            duration_ms: u64::MAX,
            framerate: FrameRate { numerator: u64::MAX, denominator: 1 },
        }),
        "input: 0x4294967295, 18446744073709551615.0fps, 18446744073709551.6s"
    );
}

#[test]
fn segment_is_told_with_start_end_and_length() {
    assert_eq!(
        segment_line(&Segment { start_ms: 0, duration_ms: 3000 }),
        "\nsegment: 0.0s - 3.0s (3.0s)"
    );
    assert_eq!(
        segment_line(&Segment { start_ms: 6000, duration_ms: 1000 }),
        "\nsegment: 6.0s - 7.0s (1.0s)"
    );
    assert_eq!(
        segment_line(&Segment { start_ms: 1125, duration_ms: 375 }),
        "\nsegment: 1.1s - 1.5s (0.4s)"
    );
    assert_eq!(
        segment_line(&Segment { start_ms: u64::MAX, duration_ms: u64::MAX }),
        "\nsegment: 18446744073709551.6s - 36893488147419103.2s (18446744073709551.6s)"
    );
}

#[test]
fn times_and_sizes_match_the_formatting_of_floats() {
    for ms in [0u64, 1, 49, 51, 375, 1000, 1125, 1500, 2999, 3000, 7033, 123_456] {
        let expected = format!("\nsegment: {:.1}s - {:.1}s ({:.1}s)", 0.0, ms as f64 / 1000.0, ms as f64 / 1000.0);
        assert_eq!(segment_line(&Segment { start_ms: 0, duration_ms: ms }), expected);
    }
    for bytes in [0u64, 1, 5242, 5243, 1_048_576, 10_000_000, 10_485_760, 123_456_789] {
        let expected = format!("  -> {:.2} MB (fits at full quality)", bytes as f64 / (1024.0 * 1024.0));
        assert_eq!(fits_line(bytes), expected);
    }
}

#[test]
fn decisions_are_told_with_the_size() {
    assert_eq!(fits_line(10_000_000), "  -> 9.54 MB (fits at full quality)");
    assert_eq!(degraded_line(1_048_576), "  -> 1.00 MB (degraded quality)");
    assert_eq!(
        degrade_line(15_728_640),
        "  -> 15.00 MB (too large, segment too short to split — degrading quality)"
    );
    assert_eq!(
        split_line(12_582_912, &Segment { start_ms: 3000, duration_ms: 3000 }),
        "  -> 12.00 MB (too large, splitting 3.0s into 2x 1.5s)"
    );
    assert_eq!(
        split_line(u64::MAX, &Segment { start_ms: 0, duration_ms: 751 }),
        "  -> 17592186044416.00 MB (too large, splitting 0.8s into 2x 0.4s)"
    );
    assert_eq!(fits_line(5242), "  -> 0.00 MB (fits at full quality)");
    assert_eq!(fits_line(5243), "  -> 0.01 MB (fits at full quality)");
}

#[test]
fn attempts_are_told_with_their_quality() {
    let params = EncodeParams { width: 339, fps: 15, colors: 128, start_ms: 0, duration_ms: 1 };
    assert_eq!(attempt_line(1, &params), "  attempt 1: 339px, 15fps, 128 colors");
    assert_eq!(attempt_line(u32::MAX, &params), "  attempt 4294967295: 339px, 15fps, 128 colors");
}

#[test]
fn the_end_is_told_with_every_path() {
    assert_eq!(done_lines(&vec![]), vec!["\ndone — 0 chunk(s) written:"]);
    assert_eq!(
        done_lines(&vec!["a/demo_001.gif".to_string(), "a/demo_002.gif".to_string()]),
        vec!["\ndone — 2 chunk(s) written:", "  a/demo_001.gif", "  a/demo_002.gif"]
    );
}

#[test]
fn a_conversion_tells_what_it_decides() {
    let options = ConvertOptions {
        input: "video.mp4".to_string(),
        output: None,
        max_size_bytes: 1_048_576,
        width: 480,
        fps: 15,
        colors: 256,
        chunk_ms: 1000,
    };
    let mut conversion = Conversion::new(&options, &info(1500, 30, 1)).unwrap();
    assert!(conversion.told().is_empty());
    // the first second is cut in two; its first half fits only at a
    // lowered quality
    let sizes = [3_145_728u64, 2_097_152, 1_048_576, 524_288, 1_048_576];
    for size in sizes {
        conversion.poll();
        conversion.poll();
        conversion.encoded(size);
    }
    assert!(conversion.is_finished());
    assert_eq!(
        conversion.told(),
        &vec![
            "\nsegment: 0.0s - 1.0s (1.0s)",
            "  -> 3.00 MB (too large, splitting 1.0s into 2x 0.5s)",
            "\nsegment: 0.0s - 0.5s (0.5s)",
            "  -> 2.00 MB (too large, segment too short to split — degrading quality)",
            "  attempt 1: 480px, 15fps, 256 colors",
            "  -> 1.00 MB (degraded quality)",
            "\nsegment: 0.5s - 1.0s (0.5s)",
            "  -> 0.50 MB (fits at full quality)",
            "\nsegment: 1.0s - 1.5s (0.5s)",
            "  -> 1.00 MB (fits at full quality)",
        ]
    );
}

#[test]
fn a_failing_conversion_tells_every_attempt() {
    let options = ConvertOptions {
        input: "video.mp4".to_string(),
        output: None,
        max_size_bytes: 1000,
        width: 480,
        fps: 15,
        colors: 256,
        chunk_ms: 3000,
    };
    let tuning = Tuning { min_split_ms: 5000, ..Tuning::default() };
    let mut conversion = Conversion::with_tuning(&options, &info(3000, 30, 1), tuning).unwrap();
    for _ in 0..8 {
        conversion.poll();
        conversion.encoded(1_000_000);
    }
    assert_eq!(
        conversion.told(),
        &vec![
            "\nsegment: 0.0s - 3.0s (3.0s)",
            "  -> 0.95 MB (too large, segment too short to split — degrading quality)",
            "  attempt 1: 480px, 15fps, 256 colors",
            "  attempt 2: 240px, 15fps, 256 colors",
            "  attempt 3: 240px, 8fps, 256 colors",
            "  attempt 4: 240px, 8fps, 128 colors",
            "  attempt 5: 240px, 8fps, 64 colors",
        ]
    );
}
