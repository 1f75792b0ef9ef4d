use htr_detect::classify::classify;
use htr_detect::detect::{suppress_close, wide_peaks};
use htr_detect::pipeline::{
    check_sample_count, detect_events, detect_peaks, resolve_threshold, DetectionConfig,
    PipelineError,
};
use htr_detect::types::{EventTag, MarkedSample, Peak};

fn marks(above: &[bool], levels: &[u64]) -> Vec<MarkedSample> {
    above
        .iter()
        .zip(levels.iter())
        .map(|(&above, &level)| MarkedSample { level, above })
        .collect()
}

fn peak(index: usize, level: u64) -> Peak {
    Peak { index, level }
}

#[test]
fn classification_boundary_exact_distance_is_fractionated() {
    let s = classify(&vec![peak(4, 1), peak(12, 1)], 8);
    assert_eq!(s.events[0].tag, EventTag::Isolated);
    assert_eq!(s.events[1].tag, EventTag::Fractionated);
    assert_eq!(s.total_count, 2);
    assert_eq!(s.fractionated_count, 1);
}

#[test]
fn classification_boundary_one_more_is_isolated() {
    let s = classify(&vec![peak(4, 1), peak(13, 1)], 8);
    assert_eq!(s.events[1].tag, EventTag::Isolated);
    assert_eq!(s.fractionated_count, 0);
}

#[test]
fn classification_of_empty_sequence() {
    let s = classify(&vec![], 8);
    assert!(s.events.is_empty());
    assert_eq!(s.total_count, 0);
    assert_eq!(s.fractionated_count, 0);
}

#[test]
fn classification_counts_a_train() {
    let s = classify(&vec![peak(0, 5), peak(3, 5), peak(20, 5), peak(22, 5), peak(24, 5)], 3);
    let tags: Vec<EventTag> = s.events.iter().map(|e| e.tag).collect();
    assert_eq!(
        tags,
        vec![
            EventTag::Isolated,
            EventTag::Fractionated,
            EventTag::Isolated,
            EventTag::Fractionated,
            EventTag::Fractionated
        ]
    );
    assert_eq!(s.total_count, 5);
    assert_eq!(s.fractionated_count, 3);
    assert_eq!(s.events[2].peak, peak(20, 5));
}

#[test]
fn distance_suppression_keeps_larger() {
    let r = suppress_close(&vec![peak(10, 3), peak(15, 7)], 8);
    assert_eq!(r, vec![peak(15, 7)]);
    let r = suppress_close(&vec![peak(10, 7), peak(15, 3)], 8);
    assert_eq!(r, vec![peak(10, 7)]);
}

#[test]
fn distance_suppression_tie_keeps_earlier() {
    let r = suppress_close(&vec![peak(10, 5), peak(15, 5)], 8);
    assert_eq!(r, vec![peak(10, 5)]);
}

#[test]
fn distance_suppression_far_apart_keeps_both() {
    let r = suppress_close(&vec![peak(10, 5), peak(18, 9)], 8);
    assert_eq!(r, vec![peak(10, 5), peak(18, 9)]);
}

#[test]
fn distance_suppression_chain() {
    let r = suppress_close(&vec![peak(0, 1), peak(5, 2), peak(10, 3), peak(30, 1)], 8);
    assert_eq!(r, vec![peak(10, 3), peak(30, 1)]);
}

#[test]
fn width_suppression_drops_single_spike() {
    let s = marks(&[false, false, true, false, false], &[0, 0, 9, 0, 0]);
    assert!(wide_peaks(&s, 3).is_empty());
}

#[test]
fn width_suppression_keeps_plateau() {
    let s = marks(&[false, true, true, true, false], &[0, 4, 6, 5, 0]);
    assert_eq!(wide_peaks(&s, 3), vec![peak(1, 4), peak(2, 6), peak(3, 5)]);
    let cfg = DetectionConfig::new(8, 3).unwrap();
    assert_eq!(detect_peaks(&s, &cfg), vec![peak(2, 6)]);
}

#[test]
fn width_rule_at_the_edges() {
    let s = marks(&[true, true, false, true, true, true], &[1, 2, 0, 3, 4, 5]);
    assert_eq!(wide_peaks(&s, 3), vec![peak(3, 3), peak(4, 4), peak(5, 5)]);
    assert_eq!(wide_peaks(&s, 2).len(), 5);
}

#[test]
fn detect_peaks_on_empty_input() {
    let cfg = DetectionConfig::new(8, 3).unwrap();
    assert!(detect_peaks(&vec![], &cfg).is_empty());
}

#[test]
fn detect_events_two_bursts() {
    let mut above = vec![false; 40];
    let mut levels = vec![0u64; 40];
    for i in 5..9 {
        above[i] = true;
        levels[i] = 10 + i as u64;
    }
    for i in 13..17 {
        above[i] = true;
        levels[i] = 30 - i as u64;
    }
    for i in 30..33 {
        above[i] = true;
        levels[i] = 7;
    }
    let s = marks(&above, &levels);
    let cfg = DetectionConfig::new(5, 3).unwrap();
    let r = detect_events(&s, &cfg);
    let idx: Vec<usize> = r.events.iter().map(|e| e.peak.index).collect();
    assert_eq!(idx, vec![8, 13, 30]);
    assert_eq!(r.events[1].tag, EventTag::Fractionated);
    assert_eq!(r.total_count, 3);
    assert_eq!(r.fractionated_count, 1);
}

#[test]
fn threshold_cap() {
    assert_eq!(resolve_threshold(120, 75), 75);
    assert_eq!(resolve_threshold(40, 75), 40);
    assert_eq!(resolve_threshold(75, 75), 75);
}

#[test]
fn threshold_cap_on_float_levels() {
    let cand = 0.3f64 * 15.0;
    let ceiling = 0.075f64;
    let r = f64::from_bits(resolve_threshold(cand.to_bits(), ceiling.to_bits()));
    assert_eq!(r, ceiling);
    let cand = 0.001f64 * 15.0;
    let r = f64::from_bits(resolve_threshold(cand.to_bits(), ceiling.to_bits()));
    assert_eq!(r, cand);
}

#[test]
fn empty_input_is_rejected() {
    assert_eq!(check_sample_count(0), Err(PipelineError::EmptyInputError));
    assert_eq!(check_sample_count(1), Err(PipelineError::InsufficientDataError));
    assert_eq!(check_sample_count(2), Ok(()));
}

#[test]
fn config_must_be_positive() {
    assert_eq!(DetectionConfig::new(0, 3), Err(PipelineError::ConfigError));
    assert_eq!(DetectionConfig::new(8, 0), Err(PipelineError::ConfigError));
    let cfg = DetectionConfig::new(8, 3).unwrap();
    assert_eq!(cfg.min_event_distance, 8);
    assert_eq!(cfg.min_event_width, 3);
}
