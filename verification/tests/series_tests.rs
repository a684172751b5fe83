use satvis::{
    build_samples, collect_propagated, normalize_azimuth_cdeg, run_pipeline, Measurement,
    PipelineError,
};

fn measurement(azimuth_raw_cdeg: i64, elevation_cdeg: i64, range_m: i64) -> Measurement {
    Measurement {
        azimuth_raw_cdeg,
        elevation_cdeg,
        range_m,
        altitude_ckm: 40000,
    }
}

#[test]
fn forward_difference_range_rate() {
    let times = vec![0i64, 10, 20];
    let meas = vec![
        measurement(0, 0, 1_000_000),
        measurement(0, 0, 1_000_500),
        measurement(0, 0, 999_000),
    ];
    let samples = build_samples(&times, &meas);
    assert_eq!(samples.len(), 3);
    // (1000500 - 1000000) / 10 = 50 m/s
    assert_eq!(samples[0].range_rate_mps, 50);
    // (999000 - 1000500) / 10 = -150 m/s
    assert_eq!(samples[1].range_rate_mps, -150);
}

#[test]
fn range_rate_rounds_to_nearest() {
    let times = vec![0i64, 60, 70, 80];
    let meas = vec![
        measurement(0, 0, 1_000_000),
        measurement(0, 0, 1_000_059),
        measurement(0, 0, 1_000_004),
        measurement(0, 0, 1_000_124),
    ];
    let samples = build_samples(&times, &meas);
    // 59 / 60 = 0.983 m/s rounds up to 1
    assert_eq!(samples[0].range_rate_mps, 1);
    // -55 / 10 = -5.5 m/s rounds half away from zero to -6
    assert_eq!(samples[1].range_rate_mps, -6);
    // 120 / 10 = 12 m/s exactly
    assert_eq!(samples[2].range_rate_mps, 12);
    assert_eq!(samples[3].range_rate_mps, 0);
}

#[test]
fn last_sample_range_rate_is_zero() {
    let times = vec![0i64, 60];
    let meas = vec![measurement(0, 100, 500_000), measurement(0, 200, 700_000)];
    let samples = build_samples(&times, &meas);
    assert_eq!(samples[1].range_rate_mps, 0);

    let single = build_samples(&vec![5i64], &vec![measurement(0, 0, 1)]);
    assert_eq!(single[0].range_rate_mps, 0);
}

#[test]
fn azimuth_is_normalized() {
    assert_eq!(normalize_azimuth_cdeg(-9000), 27000);
    assert_eq!(normalize_azimuth_cdeg(-1), 35999);
    assert_eq!(normalize_azimuth_cdeg(0), 0);
    assert_eq!(normalize_azimuth_cdeg(18000), 18000);

    let times = vec![0i64];
    let meas = vec![measurement(-12345, 0, 0)];
    let samples = build_samples(&times, &meas);
    assert_eq!(samples[0].azimuth_cdeg, -12345 + 36000);
    assert!(samples[0].azimuth_cdeg >= 0 && samples[0].azimuth_cdeg < 36000);
}

#[test]
fn range_rounds_to_centi_km() {
    let times = vec![0i64, 1, 2];
    let meas = vec![
        measurement(0, 0, 123_454),
        measurement(0, 0, 123_455),
        measurement(0, 0, 123_456),
    ];
    let samples = build_samples(&times, &meas);
    // metres to centi-kilometres, half rounds up
    assert_eq!(samples[0].range_ckm, 12345);
    assert_eq!(samples[1].range_ckm, 12346);
    assert_eq!(samples[2].range_ckm, 12346);
}

#[test]
fn sample_carries_time_elevation_altitude() {
    let times = vec![100i64, 160];
    let meas = vec![measurement(500, -321, 9), measurement(600, 8999, 19)];
    let samples = build_samples(&times, &meas);
    assert_eq!(samples[0].time_s, 100);
    assert_eq!(samples[0].elevation_cdeg, -321);
    assert_eq!(samples[0].altitude_ckm, 40000);
    assert_eq!(samples[1].time_s, 160);
    assert_eq!(samples[1].elevation_cdeg, 8999);
}

#[test]
fn collect_propagated_keeps_all_values() {
    let outcomes = vec![Some(measurement(1, 2, 3)), Some(measurement(4, 5, 6))];
    let ms = collect_propagated(&outcomes).unwrap();
    assert_eq!(ms.len(), 2);
    assert_eq!(ms[0].azimuth_raw_cdeg, 1);
    assert_eq!(ms[1].range_m, 6);
}

#[test]
fn collect_propagated_surfaces_failure() {
    let outcomes = vec![Some(measurement(1, 2, 3)), None, Some(measurement(4, 5, 6))];
    let r = collect_propagated(&outcomes);
    assert_eq!(r.unwrap_err(), PipelineError::Propagation);
}

#[test]
fn pipeline_composes_and_repeats_identically() {
    let times = vec![0i64, 10, 20, 30];
    let meas = vec![
        measurement(100, -500, 2_000_000),
        measurement(200, 1500, 1_500_000),
        measurement(300, 2500, 1_400_000),
        measurement(400, 500, 1_600_000),
    ];
    let first = run_pipeline(&times, &meas, 1000);
    let second = run_pipeline(&times, &meas, 1000);
    assert_eq!(first.len(), 1);
    assert_eq!(second.len(), first.len());
    assert_eq!(first[0].start_s, 10);
    assert_eq!(first[0].end_s, 20);
    assert_eq!(first[0].max_elevation_cdeg, 2500);
    assert_eq!(first[0].max_elevation_time_s, 20);
    assert_eq!(first[0].samples.len(), 2);
    // forward difference on the unrounded metre ranges: (1400000-1500000)/10
    assert_eq!(first[0].samples[0].range_rate_mps, -10000);
    assert_eq!(second[0].start_s, first[0].start_s);
    assert_eq!(second[0].end_s, first[0].end_s);
    assert_eq!(second[0].max_elevation_cdeg, first[0].max_elevation_cdeg);
    assert_eq!(second[0].samples.len(), first[0].samples.len());
}
