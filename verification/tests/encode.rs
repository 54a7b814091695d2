use clippr::encode::{encoder_args, filter_graph, seconds_arg};
use clippr::EncodeParams;

#[test]
fn seconds_have_three_decimal_places() {
    assert_eq!(seconds_arg(0), "0.000");
    assert_eq!(seconds_arg(5), "0.005");
    assert_eq!(seconds_arg(50), "0.050");
    assert_eq!(seconds_arg(999), "0.999");
    assert_eq!(seconds_arg(1000), "1.000");
    assert_eq!(seconds_arg(1500), "1.500");
    assert_eq!(seconds_arg(12050), "12.050");
    assert_eq!(seconds_arg(3_600_001), "3600.001");
    assert_eq!(seconds_arg(u64::MAX), "18446744073709551.615");
}

#[test]
fn seconds_match_the_formatting_of_floats() {
    for ms in [0u64, 1, 375, 500, 750, 1500, 3000, 6000, 7000, 123456] {
        assert_eq!(seconds_arg(ms), format!("{:.3}", ms as f64 / 1000.0));
    }
}

#[test]
fn filter_graph_names_rate_width_and_palette() {
    let params = EncodeParams { width: 480, fps: 15, colors: 256, start_ms: 0, duration_ms: 3000 };
    assert_eq!(
        filter_graph(&params),
        "fps=15,scale=480:-1:flags=lanczos,split[s0][s1];[s0]palettegen=max_colors=256:stats_mode=diff[p];[s1][p]paletteuse=dither=floyd_steinberg"
    );
    let params = EncodeParams { width: 0, fps: u32::MAX, colors: 7, start_ms: 0, duration_ms: 0 };
    assert_eq!(
        filter_graph(&params),
        "fps=4294967295,scale=0:-1:flags=lanczos,split[s0][s1];[s0]palettegen=max_colors=7:stats_mode=diff[p];[s1][p]paletteuse=dither=floyd_steinberg"
    );
}

#[test]
fn encoder_arguments_come_in_order() {
    let params =
        EncodeParams { width: 339, fps: 15, colors: 128, start_ms: 1500, duration_ms: 375 };
    let args = encoder_args("in dir/video.mp4", "out/demo.tmp_000003.gif", &params);
    assert_eq!(
        args,
        vec![
            "-y",
            "-ss",
            "1.500",
            "-t",
            "0.375",
            "-i",
            "in dir/video.mp4",
            "-vf",
            "fps=15,scale=339:-1:flags=lanczos,split[s0][s1];[s0]palettegen=max_colors=128:stats_mode=diff[p];[s1][p]paletteuse=dither=floyd_steinberg",
            "out/demo.tmp_000003.gif",
        ]
    );
}
