//! What one run of the encoder is asked to render, and the arguments that
//! `ffmpeg` is started with for it.

use crate::decimal::decimal;
use crate::decimal::padded;
use crate::decimal::push_decimal;
use crate::decimal::push_padded;
use vstd::prelude::*;

verus! {

/// One time range of the input at one quality. Times are in milliseconds.
#[derive(Debug, Clone, Copy, PartialEq, Eq, Structural)]
pub struct EncodeParams {
    pub width: u32,
    pub fps: u32,
    pub colors: u32,
    pub start_ms: u64,
    pub duration_ms: u64,
}

/// A time in seconds with three decimal places, such as `12.050`.
pub open spec fn seconds_text(ms: nat) -> Seq<char> {
    decimal(ms / 1000) + "."@ + padded(ms % 1000, 3)
}

/// The filter graph: set the frame rate, scale to the width, make a
/// palette of the given size from the frames and apply it with dithering.
pub open spec fn filter_graph_spec(params: EncodeParams) -> Seq<char> {
    "fps="@ + decimal(params.fps as nat) + ",scale="@ + decimal(params.width as nat)
        + ":-1:flags=lanczos,split[s0][s1];[s0]palettegen=max_colors="@ + decimal(
        params.colors as nat,
    ) + ":stats_mode=diff[p];[s1][p]paletteuse=dither=floyd_steinberg"@
}

/// The arguments of one run: overwrite the output, seek to the start,
/// stop after the duration, read the input, filter, write the output.
pub open spec fn encoder_args_spec(input: Seq<char>, output: Seq<char>, params: EncodeParams) -> Seq<
    Seq<char>,
> {
    seq![
        "-y"@,
        "-ss"@,
        seconds_text(params.start_ms as nat),
        "-t"@,
        seconds_text(params.duration_ms as nat),
        "-i"@,
        input,
        "-vf"@,
        filter_graph_spec(params),
        output,
    ]
}

/// A time in seconds with three decimal places.
pub fn seconds_arg(ms: u64) -> (text: String)
    ensures
        text@ == seconds_text(ms as nat),
{
    let mut text = String::new();
    push_decimal(&mut text, (ms / 1000) as u128);
    text.append(".");
    push_padded(&mut text, (ms % 1000) as u128, 3);
    assert(text@ =~= seconds_text(ms as nat));
    text
}

/// The filter graph for one run of the encoder.
pub fn filter_graph(params: &EncodeParams) -> (text: String)
    ensures
        text@ == filter_graph_spec(*params),
{
    let mut text = String::from_str("fps=");
    push_decimal(&mut text, params.fps as u128);
    text.append(",scale=");
    push_decimal(&mut text, params.width as u128);
    text.append(":-1:flags=lanczos,split[s0][s1];[s0]palettegen=max_colors=");
    push_decimal(&mut text, params.colors as u128);
    text.append(":stats_mode=diff[p];[s1][p]paletteuse=dither=floyd_steinberg");
    text
}

/// The arguments that `ffmpeg` is started with for one run.
pub fn encoder_args(input: &str, output: &str, params: &EncodeParams) -> (args: Vec<String>)
    ensures
        args@.len() == 10,
        forall|i: int|
            0 <= i < 10 ==> (#[trigger] args@[i])@ == encoder_args_spec(
                input@,
                output@,
                *params,
            )[i],
{
    let mut args: Vec<String> = Vec::new();
    args.push(String::from_str("-y"));
    args.push(String::from_str("-ss"));
    args.push(seconds_arg(params.start_ms));
    args.push(String::from_str("-t"));
    args.push(seconds_arg(params.duration_ms));
    args.push(String::from_str("-i"));
    args.push(String::from_str(input));
    args.push(String::from_str("-vf"));
    args.push(filter_graph(params));
    args.push(String::from_str(output));
    args
}

} // verus!
