//! What is known of a video before it is converted, and how it is read
//! from what the prober reports.

use crate::decimal::chars_of;
use crate::decimal::decimal_of;
use crate::decimal::find_char;
use crate::decimal::held;
use crate::decimal::lemma_find_char;
use crate::decimal::lemma_pow10_positive;
use crate::decimal::lemma_pow10_split;
use crate::decimal::parse_decimal;
use crate::decimal::pow10;
use crate::decimal::scale_up;
use crate::decimal::DecimalNumber;
use crate::error::Error;
use vstd::arithmetic::div_mod::lemma_fundamental_div_mod;
use vstd::arithmetic::div_mod::lemma_fundamental_div_mod_converse;
use vstd::arithmetic::div_mod::lemma_mod_pos_bound;
use vstd::prelude::*;

verus! {

/// The frame rate that is taken where the prober reports none that can be read.
pub const FALLBACK_FPS: u64 = 30;

/// Frames per second, as a fraction.
#[derive(Debug, Clone, Copy, PartialEq, Eq, Structural)]
pub struct FrameRate {
    pub numerator: u64,
    pub denominator: u64,
}

/// Size, length and frame rate of a video. The length is in milliseconds.
#[derive(Debug, Clone, Copy, PartialEq, Eq, Structural)]
pub struct VideoInfo {
    pub width: u32,
    pub height: u32,
    pub duration_ms: u64,
    pub framerate: FrameRate,
}

/// What the prober reports of one stream.
#[derive(Debug, Clone, PartialEq, Eq)]
pub struct StreamReport {
    pub width: Option<u32>,
    pub height: Option<u32>,
    pub r_frame_rate: Option<String>,
}

/// What the prober reports of a file: its video streams, and its length
/// in seconds as text.
#[derive(Debug, Clone, PartialEq, Eq)]
pub struct ProbeReport {
    pub streams: Vec<StreamReport>,
    pub duration: Option<String>,
}

/// `a / b`, rounded up.
pub open spec fn ceil_div(a: nat, b: nat) -> nat {
    ((a + b - 1) / (b as int)) as nat
}

/// The frame rate that a text stands for, as a fraction. The text is a
/// number, or two numbers with one `/` between them, the second of which
/// is not zero.
pub open spec fn frame_rate_of(text: Seq<char>) -> Option<(nat, nat)> {
    let slash = find_char(text, '/', 0);
    if slash >= text.len() {
        match decimal_of(text) {
            Some((mantissa, places)) => Some((mantissa, pow10(places))),
            None => None,
        }
    } else if find_char(text, '/', slash + 1) < text.len() {
        None
    } else {
        match (decimal_of(text.take(slash)), decimal_of(text.skip(slash + 1))) {
            (Some((above, above_places)), Some((below, below_places))) => if below > 0 {
                Some((above * pow10(below_places), below * pow10(above_places)))
            } else {
                None
            },
            _ => None,
        }
    }
}

/// The frame rate as it is held, where it can be.
pub open spec fn held_rate(rate: Option<(nat, nat)>) -> Option<FrameRate> {
    match rate {
        Some((numerator, denominator)) => if numerator <= u64::MAX && denominator <= u64::MAX {
            Some(FrameRate { numerator: numerator as u64, denominator: denominator as u64 })
        } else {
            None
        },
        None => None,
    }
}

/// The length in milliseconds that a text in seconds stands for, rounded
/// up to whole milliseconds, where the number and the length can be held.
pub open spec fn duration_ms_of(text: Seq<char>) -> Option<u64> {
    match held(decimal_of(text)) {
        Some(number) => if number.millis_spec() <= u64::MAX {
            Some(number.millis_spec() as u64)
        } else {
            None
        },
        None => None,
    }
}

/// The frame rate of a stream: what its report holds, or the fallback
/// where it holds none that can be read.
pub open spec fn frame_rate_or_fallback(raw: Option<String>) -> FrameRate {
    match raw {
        Some(text) => match held_rate(frame_rate_of(text@)) {
            Some(rate) => rate,
            None => FrameRate { numerator: FALLBACK_FPS, denominator: 1 },
        },
        None => FrameRate { numerator: FALLBACK_FPS, denominator: 1 },
    }
}

/// What a report lacks, if it lacks anything that is needed.
pub open spec fn probe_error(report: &ProbeReport) -> Option<Seq<char>> {
    if report.streams@.len() == 0 {
        Some("no video stream found"@)
    } else if report.streams@[0].width is None {
        Some("missing width"@)
    } else if report.streams@[0].height is None {
        Some("missing height"@)
    } else if report.duration is None || duration_ms_of(report.duration->0@) is None {
        Some("missing duration"@)
    } else {
        None
    }
}

/// What a complete report says of the video: the size and frame rate of
/// its first stream, and its length.
pub open spec fn video_info_spec(report: &ProbeReport) -> VideoInfo {
    VideoInfo {
        width: report.streams@[0].width->0,
        height: report.streams@[0].height->0,
        duration_ms: duration_ms_of(report.duration->0@)->0,
        framerate: frame_rate_or_fallback(report.streams@[0].r_frame_rate),
    }
}

impl DecimalNumber {
    /// A thousand times the number, rounded up: seconds in whole milliseconds.
    pub open spec fn millis_spec(self) -> nat {
        ceil_div(self.mantissa as nat * 1000, pow10(self.places as nat))
    }

    /// A thousand times the number, rounded up, where it fits.
    pub fn millis(&self) -> (ms: Option<u64>)
        ensures
            self.millis_spec() <= u64::MAX ==> ms == Some(self.millis_spec() as u64),
            self.millis_spec() > u64::MAX ==> ms is None,
    {
        if self.places <= 3 {
            proof {
                lemma_millis_short(self.mantissa as nat, self.places as nat);
            }
            scale_up(self.mantissa, 3 - self.places)
        } else {
            let mut value: u64 = self.mantissa;
            let mut done: usize = 0;
            let extra: usize = self.places - 3;
            proof {
                lemma_ceil_unique(value as nat, 1, value as nat);
            }
            while done < extra && value > 1
                invariant
                    done <= extra,
                    extra == self.places - 3,
                    value == ceil_div(self.mantissa as nat, pow10(done as nat)),
                decreases extra - done,
            {
                proof {
                    lemma_pow10_positive(done as nat);
                    lemma_ceil_nested(self.mantissa as nat, pow10(done as nat), 10);
                    assert(pow10(done as nat) * 10 == pow10((done + 1) as nat));
                }
                value = value / 10 + if value % 10 == 0 {
                    0
                } else {
                    1
                };
                done += 1;
            }
            proof {
                lemma_ceil_settles(self.mantissa as nat, done as nat, extra as nat);
                lemma_millis_long(self.mantissa as nat, self.places as nat);
            }
            Some(value)
        }
    }
}

/// Rounding up a division gives the one whole number `q` with
/// `(q - 1) * b < a <= q * b`.
pub proof fn lemma_ceil_unique(a: nat, b: nat, q: nat)
    requires
        b > 0,
        (q - 1) * b < a <= q * b,
    ensures
        ceil_div(a, b) == q,
{
    let x = (a + b - 1) as int;
    let r = x - q * b;
    assert(0 <= r < b) by (nonlinear_arith)
        requires
            (q - 1) * b < a <= q * b,
            r == a + b - 1 - q * b,
    ;
    lemma_fundamental_div_mod_converse(x, b as int, q as int, r);
}

/// Rounding up a division gives a whole number `q` with
/// `(q - 1) * b < a <= q * b`.
pub proof fn lemma_ceil_bounds(a: nat, b: nat)
    requires
        b > 0,
    ensures
        (ceil_div(a, b) - 1) * b < a <= ceil_div(a, b) * b,
{
    let x = (a + b - 1) as int;
    let q = x / (b as int);
    lemma_fundamental_div_mod(x, b as int);
    lemma_mod_pos_bound(x, b as int);
    let r = x % (b as int);
    assert(q >= 0) by (nonlinear_arith)
        requires
            x == b * q + r,
            0 <= r < b,
            x >= 0,
            b > 0,
    ;
    assert((q - 1) * b < a <= q * b) by (nonlinear_arith)
        requires
            a + b - 1 == b * q + r,
            0 <= r < b,
    ;
}

/// Rounding up twice is rounding up once by the product.
pub proof fn lemma_ceil_nested(a: nat, b: nat, c: nat)
    requires
        b > 0,
        c > 0,
    ensures
        ceil_div(ceil_div(a, b), c) == ceil_div(a, b * c),
        ceil_div(a, b) / c + (if ceil_div(a, b) % c == 0 {
            0nat
        } else {
            1nat
        }) == ceil_div(ceil_div(a, b), c),
{
    let inner = ceil_div(a, b);
    let outer = ceil_div(inner, c);
    lemma_ceil_bounds(a, b);
    lemma_ceil_bounds(inner, c);
    assert(b * c > 0) by (nonlinear_arith)
        requires
            b > 0,
            c > 0,
    ;
    assert((outer - 1) * (b * c) < a <= outer * (b * c)) by (nonlinear_arith)
        requires
            (inner - 1) * b < a <= inner * b,
            (outer - 1) * c < inner <= outer * c,
            b > 0,
            c > 0,
    ;
    lemma_ceil_unique(a, b * c, outer);
    let whole = inner as int / (c as int);
    let rest = inner as int % (c as int);
    lemma_fundamental_div_mod(inner as int, c as int);
    lemma_mod_pos_bound(inner as int, c as int);
    assert(whole >= 0) by (nonlinear_arith)
        requires
            inner == c * whole + rest,
            0 <= rest < c,
            inner >= 0,
            c > 0,
    ;
    if rest == 0 {
        assert((whole - 1) * c < inner <= whole * c) by (nonlinear_arith)
            requires
                inner == c * whole,
                c > 0,
        ;
        lemma_ceil_unique(inner, c, whole as nat);
    } else {
        assert((whole + 1 - 1) * c < inner <= (whole + 1) * c) by (nonlinear_arith)
            requires
                inner == c * whole + rest,
                0 < rest < c,
        ;
        lemma_ceil_unique(inner, c, (whole + 1) as nat);
    }
}

/// Once a number has been rounded up to zero or one, it stays there
/// however many more places are taken away.
proof fn lemma_ceil_settles(mantissa: nat, done: nat, extra: nat)
    requires
        done <= extra,
        done < extra ==> ceil_div(mantissa, pow10(done)) <= 1,
    ensures
        ceil_div(mantissa, pow10(extra)) == ceil_div(mantissa, pow10(done)),
{
    if done < extra {
        lemma_pow10_positive(done);
        lemma_pow10_positive((extra - done) as nat);
        lemma_pow10_split(done, (extra - done) as nat);
        let small = pow10(done);
        let large = pow10(extra);
        assert(large >= small) by (nonlinear_arith)
            requires
                large == small * pow10((extra - done) as nat),
                pow10((extra - done) as nat) >= 1,
                small >= 1,
        ;
        lemma_ceil_bounds(mantissa, small);
        let q = ceil_div(mantissa, small);
        assert((q - 1) * large < mantissa <= q * large) by (nonlinear_arith)
            requires
                (q - 1) * small < mantissa <= q * small,
                0 <= q <= 1,
                large >= small,
        ;
        lemma_ceil_unique(mantissa, large, q);
    }
}

/// With three places or fewer, the milliseconds are the digits followed
/// by zeros.
proof fn lemma_millis_short(mantissa: nat, places: nat)
    requires
        places <= 3,
    ensures
        ceil_div(mantissa * 1000, pow10(places)) == mantissa * pow10((3 - places) as nat),
{
    reveal_with_fuel(pow10, 5);
    let unit = pow10(places);
    let rest = pow10((3 - places) as nat);
    assert(pow10(0) == 1 && pow10(1) == 10 && pow10(2) == 100 && pow10(3) == 1000);
    assert(unit * rest == 1000) by {
        if places == 0 {
            assert(unit == 1 && rest == 1000);
        } else if places == 1 {
            assert(unit == 10 && rest == 100);
        } else if places == 2 {
            assert(unit == 100 && rest == 10);
        } else {
            assert(unit == 1000 && rest == 1);
        }
    }
    let q = mantissa * rest;
    assert((q - 1) * unit < mantissa * 1000 <= q * unit) by (nonlinear_arith)
        requires
            q == mantissa * rest,
            unit * rest == 1000,
            unit > 0,
    ;
    lemma_ceil_unique(mantissa * 1000, unit, q);
}

/// With more than three places, the milliseconds are the digits without
/// their last ones, rounded up.
proof fn lemma_millis_long(mantissa: nat, places: nat)
    requires
        places > 3,
    ensures
        ceil_div(mantissa * 1000, pow10(places)) == ceil_div(
            mantissa,
            pow10((places - 3) as nat),
        ),
{
    let unit = pow10((places - 3) as nat);
    lemma_pow10_positive((places - 3) as nat);
    lemma_pow10_split(3, (places - 3) as nat);
    reveal_with_fuel(pow10, 5);
    assert(pow10(places) == 1000 * unit);
    let q = ceil_div(mantissa, unit);
    lemma_ceil_bounds(mantissa, unit);
    assert((q - 1) * (1000 * unit) < mantissa * 1000 <= q * (1000 * unit)) by (nonlinear_arith)
        requires
            (q - 1) * unit < mantissa <= q * unit,
    ;
    lemma_ceil_unique(mantissa * 1000, 1000 * unit, q);
}

impl FrameRate {
    /// The rate rounded up to whole frames per second, and no more than
    /// `u32::MAX`. A rate without a denominator bounds nothing.
    pub open spec fn ceil_spec(&self) -> nat {
        if self.denominator == 0 {
            u32::MAX as nat
        } else if ceil_div(self.numerator as nat, self.denominator as nat) > u32::MAX {
            u32::MAX as nat
        } else {
            ceil_div(self.numerator as nat, self.denominator as nat)
        }
    }

    /// The rate rounded up to whole frames per second.
    pub fn ceil(&self) -> (whole: u32)
        ensures
            whole == self.ceil_spec(),
    {
        if self.denominator == 0 {
            return u32::MAX;
        }
        let whole: u128 = (self.numerator as u128 + self.denominator as u128 - 1)
            / self.denominator as u128;
        if whole > u32::MAX as u128 {
            u32::MAX
        } else {
            whole as u32
        }
    }
}

/// The first position at or after `from` that holds `c`.
fn find_from(chars: &Vec<char>, c: char, from: usize) -> (at: usize)
    requires
        from <= chars@.len(),
    ensures
        at == find_char(chars@, c, from as int),
        from <= at <= chars@.len(),
{
    let mut at: usize = from;
    while at < chars.len()
        invariant
            from <= at <= chars@.len(),
            find_char(chars@, c, from as int) == find_char(chars@, c, at as int),
        decreases chars@.len() - at,
    {
        if chars[at] == c {
            return at;
        }
        at += 1;
    }
    at
}

/// Reads a frame rate: a number such as `29.97`, or a fraction such as
/// `30000/1001`. `None` where the text is neither, where the fraction is
/// over zero, or where the rate is too long to hold.
pub fn parse_frame_rate(raw: &str) -> (rate: Option<FrameRate>)
    ensures
        rate == held_rate(frame_rate_of(raw@)),
{
    let chars = chars_of(raw);
    let len: usize = chars.len();
    let slash: usize = find_from(&chars, '/', 0);
    let ghost text = chars@;
    if slash >= len {
        assert(text.subrange(0, len as int) =~= text);
        match parse_decimal(&chars, 0, len) {
            Some(number) => {
                proof {
                    assert(1 * pow10(number.places as nat) == pow10(number.places as nat))
                        by (nonlinear_arith);
                }
                match scale_up(1, number.places) {
                    Some(denominator) => Some(
                        FrameRate { numerator: number.mantissa, denominator },
                    ),
                    None => None,
                }
            },
            None => {
                proof {
                    lemma_held_none(text);
                    if let Some((mantissa, places)) = decimal_of(text) {
                        lemma_pow10_positive(places);
                    }
                }
                None
            },
        }
    } else {
        let again: usize = find_from(&chars, '/', slash + 1);
        if again < len {
            return None;
        }
        let ghost above_text = text.take(slash as int);
        let ghost below_text = text.skip(slash + 1);
        assert(text.subrange(0, slash as int) =~= above_text);
        assert(text.subrange(slash + 1, len as int) =~= below_text);
        proof {
            lemma_held_none(above_text);
            lemma_held_none(below_text);
            if decimal_of(above_text) is Some && decimal_of(below_text) is Some {
                let (above, above_places) = decimal_of(above_text)->0;
                let (below, below_places) = decimal_of(below_text)->0;
                lemma_pow10_positive(above_places);
                lemma_pow10_positive(below_places);
                assert(above * pow10(below_places) >= above) by (nonlinear_arith)
                    requires
                        pow10(below_places) >= 1,
                ;
                assert(below * pow10(above_places) >= below) by (nonlinear_arith)
                    requires
                        pow10(above_places) >= 1,
                ;
            }
        }
        let above = match parse_decimal(&chars, 0, slash) {
            Some(number) => number,
            None => {
                return None;
            },
        };
        let below = match parse_decimal(&chars, slash + 1, len) {
            Some(number) => number,
            None => {
                return None;
            },
        };
        if below.mantissa == 0 {
            return None;
        }
        let numerator = match scale_up(above.mantissa, below.places) {
            Some(value) => value,
            None => {
                return None;
            },
        };
        let denominator = match scale_up(below.mantissa, above.places) {
            Some(value) => value,
            None => {
                return None;
            },
        };
        Some(FrameRate { numerator, denominator })
    }
}

/// A number that a text of real length stands for is held, unless its
/// digits stand for more than can be.
proof fn lemma_held_none(text: Seq<char>)
    requires
        text.len() <= usize::MAX,
    ensures
        decimal_of(text) matches Some((mantissa, places)) ==> places <= usize::MAX && (held(
            decimal_of(text),
        ) is None ==> mantissa > u64::MAX),
{
    lemma_find_char(text, '.', 0);
}

/// Reads a length in seconds, such as `7.033000`, as milliseconds,
/// rounded up. `None` where the text is no number, or one too long to hold.
pub fn parse_duration_ms(raw: &str) -> (ms: Option<u64>)
    ensures
        ms == duration_ms_of(raw@),
{
    let chars = chars_of(raw);
    let len: usize = chars.len();
    assert(chars@.subrange(0, len as int) =~= raw@);
    match parse_decimal(&chars, 0, len) {
        Some(number) => number.millis(),
        None => None,
    }
}

/// Reads what is needed of a prober's report: the size and the frame
/// rate of the first stream, and the length of the file. A frame rate
/// that cannot be read is taken to be the fallback; anything else that is
/// missing fails the probe.
pub fn video_info(report: &ProbeReport) -> (read: Result<VideoInfo, Error>)
    ensures
        match read {
            Ok(info) => probe_error(report) is None && info == video_info_spec(report),
            Err(error) => {
                &&& error matches Error::ProbeFailed(reason)
                &&& Some(reason@) == probe_error(report)
            },
        },
{
    if report.streams.len() == 0 {
        return Err(Error::ProbeFailed(String::from_str("no video stream found")));
    }
    let stream = &report.streams[0];
    let width: u32 = match stream.width {
        Some(width) => width,
        None => {
            return Err(Error::ProbeFailed(String::from_str("missing width")));
        },
    };
    let height: u32 = match stream.height {
        Some(height) => height,
        None => {
            return Err(Error::ProbeFailed(String::from_str("missing height")));
        },
    };
    let fallback = FrameRate { numerator: FALLBACK_FPS, denominator: 1 };
    let framerate = match &stream.r_frame_rate {
        Some(text) => match parse_frame_rate(text.as_str()) {
            Some(rate) => rate,
            None => fallback,
        },
        None => fallback,
    };
    let duration_ms: u64 = match &report.duration {
        Some(text) => match parse_duration_ms(text.as_str()) {
            Some(ms) => ms,
            None => {
                return Err(Error::ProbeFailed(String::from_str("missing duration")));
            },
        },
        None => {
            return Err(Error::ProbeFailed(String::from_str("missing duration")));
        },
    };
    Ok(VideoInfo { width, height, duration_ms, framerate })
}

} // verus!
