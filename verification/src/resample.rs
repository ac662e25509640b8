//! Choice of the resampling path from an SDR front-end sample rate to the
//! DAB native rate (2.048 MHz). The paths are tuned for known front-ends so
//! that OFDM timing is preserved; arbitrary wideband rates go through a
//! decimating channel-selection filter first.
use vstd::prelude::*;

verus! {

/// DAB native sample rate in Hz.
pub const SAMPLE_RATE: u32 = 2_048_000;

/// Intermediate rate of the resample-then-halve paths, in Hz.
pub const WELLE_INTERMEDIATE_RATE: u32 = 4_096_000;

/// Lowest rate a wideband input may be decimated to, in Hz, so that the
/// whole DAB channel survives.
pub const MIN_DECIMATED_RATE: u32 = 2_200_000;

/// The resampling path for one input rate, with the rates its stages run at.
#[derive(Debug, Clone, Copy, PartialEq, Eq)]
pub enum ResamplePlan {
    /// 2.048 MHz input (RTL-SDR native DAB rate): samples pass unchanged.
    Passthrough,
    /// About 4.096 MHz (Airspy): 2:1 averaging.
    Half,
    /// Fractional resampling from `input_rate` straight to the DAB rate
    /// (about 2.4 MHz RTL-SDR input, or a low arbitrary rate).
    Direct { input_rate: u32 },
    /// About 3 MHz: resample `input_rate` to 4.096 MHz, then halve.
    ResampleThenHalf { input_rate: u32 },
    /// About 6 MHz (Airspy HF+): halve, resample `half_rate` to 4.096 MHz, halve.
    HalfThenResampleThenHalf { half_rate: u32 },
    /// Wideband input: a decimating selection filter by `decimation`, then
    /// fractional resampling from `decimated_rate` to the DAB rate.
    SelectAndResample { decimation: u32, decimated_rate: u32 },
}

/// Input rate after decimation by `d`.
pub open spec fn decimated(rate: u32, d: int) -> int {
    rate as int / d
}

/// Largest decimation factor `d` with `2 <= d <= top` that keeps the
/// decimated rate at or above `MIN_DECIMATED_RATE`.
pub open spec fn spec_decimation(rate: u32, top: int) -> Option<u32>
    decreases top,
{
    if top < 2 {
        None
    } else if decimated(rate, top) >= MIN_DECIMATED_RATE {
        Some(top as u32)
    } else {
        spec_decimation(rate, top - 1)
    }
}

/// The path for a non-zero input rate.
pub open spec fn spec_plan(rate: u32) -> ResamplePlan {
    if rate == SAMPLE_RATE {
        ResamplePlan::Passthrough
    } else if 4_000_000 <= rate <= 4_200_000 {
        ResamplePlan::Half
    } else if 5_800_000 <= rate <= 6_200_000 {
        ResamplePlan::HalfThenResampleThenHalf { half_rate: rate / 2 }
    } else if 2_900_000 <= rate <= 3_100_000 {
        ResamplePlan::ResampleThenHalf { input_rate: rate }
    } else if 2_300_000 <= rate <= 2_500_000 {
        ResamplePlan::Direct { input_rate: rate }
    } else {
        match spec_decimation(rate, 64) {
            Some(d) => ResamplePlan::SelectAndResample { decimation: d, decimated_rate: rate / d },
            None => ResamplePlan::Direct { input_rate: rate },
        }
    }
}

/// The decimation factor `spec_decimation` names is the largest that keeps
/// the decimated rate high enough.
pub proof fn lemma_decimation(rate: u32, top: int)
    requires
        top <= 64,
    ensures
        spec_decimation(rate, top) matches Some(d) ==> {
            &&& 2 <= d <= top
            &&& decimated(rate, d as int) >= MIN_DECIMATED_RATE
            &&& forall|e: int| d < e <= top ==> #[trigger] decimated(rate, e) < MIN_DECIMATED_RATE
        },
        spec_decimation(rate, top) is None ==> forall|e: int| 2 <= e <= top ==> #[trigger] decimated(rate, e)
            < MIN_DECIMATED_RATE,
    decreases top,
{
    if top >= 2 && decimated(rate, top) < MIN_DECIMATED_RATE {
        lemma_decimation(rate, top - 1);
    }
}

fn select_decimation(rate: u32) -> (r: Option<u32>)
    ensures
        r == spec_decimation(rate, 64),
        r matches Some(d) ==> 2 <= d <= 64,
{
    proof {
        lemma_decimation(rate, 64);
    }
    let mut d: u32 = 64;
    while d >= 2
        invariant
            d <= 64,
            spec_decimation(rate, 64) == spec_decimation(rate, d as int),
        decreases d,
    {
        if rate / d >= MIN_DECIMATED_RATE {
            return Some(d);
        }
        d -= 1;
    }
    None
}

/// Choose the resampling path for an SDR input sample rate.
///
/// Uses hardcoded rate ranges tuned for known SDR front-ends:
/// - 2.048 MHz: passthrough (RTL-SDR native DAB rate)
/// - ~4.096 MHz: 2:1 averaging (Airspy)
/// - ~2.4 MHz: direct polyphase resample (RTL-SDR)
/// - ~3 MHz: resample to 4.096 MHz then halve
/// - ~6 MHz: halve, resample to 4.096 MHz, halve (Airspy HF+)
/// - any other rate: decimate by the largest factor up to 64 that keeps
///   2.2 MS/s, then resample; or resample directly when no factor does.
pub fn plan_resampler(input_rate_hz: u32) -> (r: Result<ResamplePlan, String>)
    ensures
        input_rate_hz == 0 <==> r is Err,
        r matches Err(e) ==> e@ == "Input sample rate must be non-zero"@,
        r matches Ok(p) ==> p == spec_plan(input_rate_hz),
{
    if input_rate_hz == 0 {
        return Err("Input sample rate must be non-zero".to_owned());
    }
    let plan = if input_rate_hz == SAMPLE_RATE {
        ResamplePlan::Passthrough
    } else if 4_000_000 <= input_rate_hz && input_rate_hz <= 4_200_000 {
        ResamplePlan::Half
    } else if 5_800_000 <= input_rate_hz && input_rate_hz <= 6_200_000 {
        ResamplePlan::HalfThenResampleThenHalf { half_rate: input_rate_hz / 2 }
    } else if 2_900_000 <= input_rate_hz && input_rate_hz <= 3_100_000 {
        ResamplePlan::ResampleThenHalf { input_rate: input_rate_hz }
    } else if 2_300_000 <= input_rate_hz && input_rate_hz <= 2_500_000 {
        ResamplePlan::Direct { input_rate: input_rate_hz }
    } else {
        match select_decimation(input_rate_hz) {
            Some(d) => ResamplePlan::SelectAndResample { decimation: d, decimated_rate: input_rate_hz / d },
            None => ResamplePlan::Direct { input_rate: input_rate_hz },
        }
    };
    Ok(plan)
}

/// Every path brings the input to the DAB rate: samples pass unchanged only
/// at exactly 2.048 MHz; the fractional resamplers start from the rate that
/// actually reaches them (the input rate, half of it, or the decimated rate)
/// and end at 2.048 MHz, or at 4.096 MHz followed by a 2:1 stage; 2:1
/// averaging alone serves only inputs of 4.0 to 4.2 MHz (2.0 to 2.1 MHz
/// out); a wideband input is decimated by the largest factor up to 64 that
/// keeps 2.2 MS/s, and only an input that no such factor serves, or a tuned
/// 2.3 to 2.5 MHz input, is resampled directly.
pub proof fn lemma_plan_reaches_dab_rate(rate: u32)
    requires
        rate > 0,
    ensures
        match spec_plan(rate) {
            ResamplePlan::Passthrough => rate == SAMPLE_RATE,
            ResamplePlan::Half => 4_000_000 <= rate <= 4_200_000,
            ResamplePlan::Direct { input_rate } => input_rate == rate && ((2_300_000 <= rate <= 2_500_000)
                || forall|d: int| 2 <= d <= 64 ==> #[trigger] decimated(rate, d) < MIN_DECIMATED_RATE),
            ResamplePlan::ResampleThenHalf { input_rate } => input_rate == rate && 2_900_000 <= rate
                <= 3_100_000,
            ResamplePlan::HalfThenResampleThenHalf { half_rate } => half_rate == rate / 2 && 5_800_000
                <= rate <= 6_200_000,
            ResamplePlan::SelectAndResample { decimation, decimated_rate } => {
                &&& 2 <= decimation <= 64
                &&& decimated_rate == rate / decimation
                &&& decimated_rate >= MIN_DECIMATED_RATE
                &&& forall|d: int| decimation < d <= 64 ==> #[trigger] decimated(rate, d) < MIN_DECIMATED_RATE
            },
        },
{
    lemma_decimation(rate, 64);
}

} // verus!
