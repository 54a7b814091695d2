//! The lines that tell a person how a conversion goes.
//!
//! Times are told in seconds with one decimal place and sizes in
//! megabytes with two, each rounded to the nearest, halves up.

use crate::decimal::decimal;
use crate::decimal::padded;
use crate::decimal::push_decimal;
use crate::decimal::push_padded;
use crate::encode::EncodeParams;
use crate::probe::FrameRate;
use crate::probe::VideoInfo;
use crate::schedule::Segment;
use vstd::prelude::*;

verus! {

/// A number of tenths with its one decimal place, such as `12.5`.
pub open spec fn tenths_text(tenths: nat) -> Seq<char> {
    decimal(tenths / 10) + "."@ + decimal(tenths % 10)
}

/// A number of hundredths with its two decimal places, such as `0.05`.
pub open spec fn hundredths_text(hundredths: nat) -> Seq<char> {
    decimal(hundredths / 100) + "."@ + padded(hundredths % 100, 2)
}

/// Milliseconds in tenths of a second, rounded to the nearest.
pub open spec fn seconds_tenths(ms: nat) -> nat {
    (ms + 50) / 100
}

/// Bytes in hundredths of a megabyte, rounded to the nearest.
pub open spec fn megabytes_hundredths(bytes: nat) -> nat {
    (bytes * 100 + 524288) / 1048576
}

/// A frame rate in tenths of a frame per second, rounded to the nearest;
/// zero for a rate without a denominator.
pub open spec fn rate_tenths(rate: FrameRate) -> nat {
    if rate.denominator == 0 {
        0
    } else {
        ((rate.numerator * 20 + rate.denominator) / (rate.denominator * 2)) as nat
    }
}

/// A time as it is told: `1.5` for 1500 milliseconds.
pub open spec fn seconds_told(ms: nat) -> Seq<char> {
    tenths_text(seconds_tenths(ms))
}

/// A size as it is told: `9.54` for ten million bytes.
pub open spec fn megabytes_told(bytes: nat) -> Seq<char> {
    hundredths_text(megabytes_hundredths(bytes))
}

/// What is told of the input once it is probed.
pub open spec fn input_line_spec(info: VideoInfo) -> Seq<char> {
    "input: "@ + decimal(info.width as nat) + "x"@ + decimal(info.height as nat) + ", "@
        + tenths_text(rate_tenths(info.framerate)) + "fps, "@ + seconds_told(
        info.duration_ms as nat,
    ) + "s"@
}

/// What is told when a segment is taken up.
pub open spec fn segment_line_spec(segment: Segment) -> Seq<char> {
    "\nsegment: "@ + seconds_told(segment.start_ms as nat) + "s - "@ + seconds_told(
        segment.end(),
    ) + "s ("@ + seconds_told(segment.duration_ms as nat) + "s)"@
}

/// What is told before an encode at a lowered quality.
pub open spec fn attempt_line_spec(attempt: nat, params: EncodeParams) -> Seq<char> {
    "  attempt "@ + decimal(attempt) + ": "@ + decimal(params.width as nat) + "px, "@ + decimal(
        params.fps as nat,
    ) + "fps, "@ + decimal(params.colors as nat) + " colors"@
}

/// What is told when the first encode of a segment fits.
pub open spec fn fits_line_spec(size: u64) -> Seq<char> {
    "  -> "@ + megabytes_told(size as nat) + " MB (fits at full quality)"@
}

/// What is told when an encode at a lowered quality fits.
pub open spec fn degraded_line_spec(size: u64) -> Seq<char> {
    "  -> "@ + megabytes_told(size as nat) + " MB (degraded quality)"@
}

/// What is told when a segment is cut in two.
pub open spec fn split_line_spec(size: u64, segment: Segment) -> Seq<char> {
    "  -> "@ + megabytes_told(size as nat) + " MB (too large, splitting "@ + seconds_told(
        segment.duration_ms as nat,
    ) + "s into 2x "@ + seconds_told((segment.duration_ms / 2) as nat) + "s)"@
}

/// What is told when a segment is handed to the fitter.
pub open spec fn degrade_line_spec(size: u64) -> Seq<char> {
    "  -> "@ + megabytes_told(size as nat)
        + " MB (too large, segment too short to split — degrading quality)"@
}

/// What is told once every chunk has its final name.
pub open spec fn done_line_spec(count: nat) -> Seq<char> {
    "\ndone — "@ + decimal(count) + " chunk(s) written:"@
}

/// What is told of one file that was written.
pub open spec fn written_line_spec(path: Seq<char>) -> Seq<char> {
    "  "@ + path
}

/// Writes a number of tenths with its one decimal place.
fn push_tenths(out: &mut String, tenths: u128)
    ensures
        final(out)@ == old(out)@ + tenths_text(tenths as nat),
{
    push_decimal(out, tenths / 10);
    out.append(".");
    push_decimal(out, tenths % 10);
    assert(out@ =~= old(out)@ + tenths_text(tenths as nat));
}

/// Writes a time in seconds with one decimal place.
fn push_seconds(out: &mut String, ms: u128)
    requires
        ms <= u128::MAX - 50,
    ensures
        final(out)@ == old(out)@ + seconds_told(ms as nat),
{
    push_tenths(out, (ms + 50) / 100);
}

/// Writes a size in megabytes with two decimal places.
fn push_megabytes(out: &mut String, bytes: u64)
    ensures
        final(out)@ == old(out)@ + megabytes_told(bytes as nat),
{
    let hundredths: u128 = (bytes as u128 * 100 + 524288) / 1048576;
    push_decimal(out, hundredths / 100);
    out.append(".");
    push_padded(out, hundredths % 100, 2);
    assert(out@ =~= old(out)@ + megabytes_told(bytes as nat));
}

/// What is told of the input once it is probed.
pub fn input_line(info: &VideoInfo) -> (line: String)
    ensures
        line@ == input_line_spec(*info),
{
    let rate = info.framerate;
    let tenths: u128 = if rate.denominator == 0 {
        0
    } else {
        (rate.numerator as u128 * 20 + rate.denominator as u128) / (rate.denominator as u128 * 2)
    };
    let mut line = String::from_str("input: ");
    push_decimal(&mut line, info.width as u128);
    line.append("x");
    push_decimal(&mut line, info.height as u128);
    line.append(", ");
    push_tenths(&mut line, tenths);
    line.append("fps, ");
    push_seconds(&mut line, info.duration_ms as u128);
    line.append("s");
    line
}

/// What is told when a segment is taken up.
pub fn segment_line(segment: &Segment) -> (line: String)
    ensures
        line@ == segment_line_spec(*segment),
{
    let mut line = String::from_str("\nsegment: ");
    push_seconds(&mut line, segment.start_ms as u128);
    line.append("s - ");
    push_seconds(&mut line, segment.start_ms as u128 + segment.duration_ms as u128);
    line.append("s (");
    push_seconds(&mut line, segment.duration_ms as u128);
    line.append("s)");
    line
}

/// What is told before an encode at a lowered quality.
pub fn attempt_line(attempt: u32, params: &EncodeParams) -> (line: String)
    ensures
        line@ == attempt_line_spec(attempt as nat, *params),
{
    let mut line = String::from_str("  attempt ");
    push_decimal(&mut line, attempt as u128);
    line.append(": ");
    push_decimal(&mut line, params.width as u128);
    line.append("px, ");
    push_decimal(&mut line, params.fps as u128);
    line.append("fps, ");
    push_decimal(&mut line, params.colors as u128);
    line.append(" colors");
    line
}

/// What is told when the first encode of a segment fits.
pub fn fits_line(size: u64) -> (line: String)
    ensures
        line@ == fits_line_spec(size),
{
    let mut line = String::from_str("  -> ");
    push_megabytes(&mut line, size);
    line.append(" MB (fits at full quality)");
    line
}

/// What is told when an encode at a lowered quality fits.
pub fn degraded_line(size: u64) -> (line: String)
    ensures
        line@ == degraded_line_spec(size),
{
    let mut line = String::from_str("  -> ");
    push_megabytes(&mut line, size);
    line.append(" MB (degraded quality)");
    line
}

/// What is told when a segment is cut in two.
pub fn split_line(size: u64, segment: &Segment) -> (line: String)
    ensures
        line@ == split_line_spec(size, *segment),
{
    let mut line = String::from_str("  -> ");
    push_megabytes(&mut line, size);
    line.append(" MB (too large, splitting ");
    push_seconds(&mut line, segment.duration_ms as u128);
    line.append("s into 2x ");
    push_seconds(&mut line, (segment.duration_ms / 2) as u128);
    line.append("s)");
    line
}

/// What is told when a segment is handed to the fitter.
pub fn degrade_line(size: u64) -> (line: String)
    ensures
        line@ == degrade_line_spec(size),
{
    let mut line = String::from_str("  -> ");
    push_megabytes(&mut line, size);
    line.append(" MB (too large, segment too short to split — degrading quality)");
    line
}

/// What is told once every chunk has its final name: how many there
/// are, and then each path on a line of its own.
pub fn done_lines(paths: &Vec<String>) -> (lines: Vec<String>)
    ensures
        lines@.len() == paths@.len() + 1,
        lines@[0]@ == done_line_spec(paths@.len()),
        forall|i: int|
            1 <= i < lines@.len() ==> (#[trigger] lines@[i])@ == written_line_spec(
                paths@[i - 1]@,
            ),
{
    let mut lines: Vec<String> = Vec::new();
    let mut first = String::from_str("\ndone — ");
    push_decimal(&mut first, paths.len() as u128);
    first.append(" chunk(s) written:");
    lines.push(first);
    let mut i: usize = 0;
    while i < paths.len()
        invariant
            i <= paths@.len(),
            lines@.len() == i + 1,
            lines@[0]@ == done_line_spec(paths@.len()),
            forall|k: int|
                1 <= k <= i ==> (#[trigger] lines@[k])@ == written_line_spec(paths@[k - 1]@),
        decreases paths@.len() - i,
    {
        let mut line = String::from_str("  ");
        line.append(paths[i].as_str());
        lines.push(line);
        i += 1;
    }
    lines
}

} // verus!
