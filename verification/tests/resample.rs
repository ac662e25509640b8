use dabradio::resample::{plan_resampler, ResamplePlan, SAMPLE_RATE};

#[test]
fn wideband_16msps_is_supported() {
    // Routed to the SelectAndResample fallback.
    assert!(plan_resampler(16_000_000).is_ok());
    assert!(plan_resampler(10_000_000).is_ok());
    assert!(plan_resampler(20_000_000).is_ok());
}

#[test]
fn tuned_sdr_paths_unchanged() {
    assert_eq!(plan_resampler(SAMPLE_RATE), Ok(ResamplePlan::Passthrough));
    assert_eq!(plan_resampler(4_096_000), Ok(ResamplePlan::Half));
    assert_eq!(plan_resampler(2_400_000), Ok(ResamplePlan::Direct { input_rate: 2_400_000 }));
    assert_eq!(
        plan_resampler(6_000_000),
        Ok(ResamplePlan::HalfThenResampleThenHalf { half_rate: 3_000_000 })
    );
    assert_eq!(plan_resampler(3_000_000), Ok(ResamplePlan::ResampleThenHalf { input_rate: 3_000_000 }));
}

#[test]
fn low_arbitrary_rate_is_not_destructively_decimated() {
    assert!(matches!(plan_resampler(1_800_000), Ok(ResamplePlan::Direct { .. })));
}

#[test]
fn zero_rate_is_rejected() {
    assert_eq!(plan_resampler(0), Err("Input sample rate must be non-zero".to_string()));
}

#[test]
fn wideband_decimation_is_largest_keeping_2_2_msps() {
    assert_eq!(
        plan_resampler(16_000_000),
        Ok(ResamplePlan::SelectAndResample { decimation: 7, decimated_rate: 2_285_714 })
    );
    assert_eq!(
        plan_resampler(10_000_000),
        Ok(ResamplePlan::SelectAndResample { decimation: 4, decimated_rate: 2_500_000 })
    );
    assert_eq!(
        plan_resampler(200_000_000),
        Ok(ResamplePlan::SelectAndResample { decimation: 64, decimated_rate: 3_125_000 })
    );
    assert_eq!(
        plan_resampler(4_400_000),
        Ok(ResamplePlan::SelectAndResample { decimation: 2, decimated_rate: 2_200_000 })
    );
    assert_eq!(plan_resampler(4_399_999), Ok(ResamplePlan::Direct { input_rate: 4_399_999 }));
}
