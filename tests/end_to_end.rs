use biquad::{Biquad, Coefficients, DirectForm2Transposed, Hertz, Type, Q_BUTTERWORTH_F64};
use htr_detect::pipeline::{check_sample_count, detect_events, resolve_threshold, DetectionConfig};
use htr_detect::types::MarkedSample;
use smoothed_z_score::{Peak, PeaksDetector};

#[test]
fn sine_wave_has_no_events() {
    let fs = 15.0f64;
    let data: Vec<f64> = (0..1000)
        .map(|i| (2.0 * std::f64::consts::PI * i as f64 / fs).sin())
        .collect();
    assert!(check_sample_count(data.len()).is_ok());

    let coeffs = Coefficients::<f64>::from_params(
        Type::LowPass,
        Hertz::<f64>::from_hz(fs).unwrap(),
        Hertz::<f64>::from_hz(5.0).unwrap(),
        Q_BUTTERWORTH_F64,
    )
    .unwrap();
    let mut filter = DirectForm2Transposed::<f64>::new(coeffs);
    let filtered: Vec<f64> = data.iter().map(|x| filter.run(*x)).collect();
    assert_eq!(filtered.len(), data.len());

    let mean = filtered.iter().sum::<f64>() / filtered.len() as f64;
    let corrected: Vec<f64> = filtered.iter().map(|x| x - mean).collect();
    let corrected_mean = corrected.iter().sum::<f64>() / corrected.len() as f64;
    assert!(corrected_mean.abs() < 1e-9);

    let var = corrected.iter().map(|x| x * x).sum::<f64>() / (corrected.len() - 1) as f64;
    let candidate = var.sqrt() * 15.0;
    let threshold = f64::from_bits(resolve_threshold(candidate.to_bits(), 0.075f64.to_bits()));
    assert_eq!(threshold, 0.075);

    let mut detector = PeaksDetector::new(0, 15.0, 0.075);
    let marked: Vec<MarkedSample> = corrected
        .iter()
        .map(|x| {
            let level = x.abs();
            MarkedSample {
                level: level.to_bits(),
                above: detector.signal(level) == Some(Peak::High),
            }
        })
        .collect();
    let cfg = DetectionConfig::new(200, 90).unwrap();
    let r = detect_events(&marked, &cfg);
    assert_eq!(r.total_count, 0);
    assert_eq!(r.fractionated_count, 0);
}
