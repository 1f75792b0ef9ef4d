use vstd::prelude::*;

use crate::classify::{classify, fractionated_count_of, tag_at, EventSummary};
use crate::detect::{
    increasing, lemma_thin_shape, lemma_wide_candidates_shape, run_above, spaced, suppress_close, thin, wide_at, wide_candidates,
    wide_peaks,
};
use crate::types::{EventTag, MarkedSample, Peak};

verus! {

/// Why a run produced no result.
#[derive(Clone, Copy, Debug, PartialEq, Eq, Structural)]
pub enum PipelineError {
    /// Invalid or physically inconsistent configuration.
    ConfigError,
    /// No samples: the mean is undefined.
    EmptyInputError,
    /// Fewer than two samples: the sample standard deviation is undefined.
    InsufficientDataError,
    /// A non-finite value was met.
    NumericError,
}

/// Rejects sequences too short for the mean or the sample standard deviation.
pub fn check_sample_count(n: usize) -> (r: Result<(), PipelineError>)
    ensures
        n == 0 ==> r == Err::<(), PipelineError>(PipelineError::EmptyInputError),
        n == 1 ==> r == Err::<(), PipelineError>(PipelineError::InsufficientDataError),
        n >= 2 ==> r is Ok,
{
    if n == 0 {
        Err(PipelineError::EmptyInputError)
    } else if n == 1 {
        Err(PipelineError::InsufficientDataError)
    } else {
        Ok(())
    }
}

/// The operating threshold: the adaptive candidate, capped by the ceiling.
pub fn resolve_threshold(candidate: u64, ceiling: u64) -> (r: u64)
    ensures
        candidate > ceiling ==> r == ceiling,
        candidate <= ceiling ==> r == candidate,
{
    if candidate > ceiling {
        ceiling
    } else {
        candidate
    }
}

/// Refractory distance and minimum width of an event, both in samples.
#[derive(Clone, Copy, Debug, PartialEq, Eq, Structural)]
pub struct DetectionConfig {
    pub min_event_distance: usize,
    pub min_event_width: usize,
}

impl DetectionConfig {
    /// Both parameters must be positive.
    pub open spec fn valid(self) -> bool {
        self.min_event_distance > 0 && self.min_event_width > 0
    }

    pub fn new(min_event_distance: usize, min_event_width: usize) -> (r: Result<
        DetectionConfig,
        PipelineError,
    >)
        ensures
            min_event_distance > 0 && min_event_width > 0 ==> r == Ok::<
                DetectionConfig,
                PipelineError,
            >(DetectionConfig { min_event_distance, min_event_width }),
            min_event_distance == 0 || min_event_width == 0 ==> r == Err::<
                DetectionConfig,
                PipelineError,
            >(PipelineError::ConfigError),
    {
        if min_event_distance == 0 || min_event_width == 0 {
            Err(PipelineError::ConfigError)
        } else {
            Ok(DetectionConfig { min_event_distance, min_event_width })
        }
    }
}

/// The peaks retained from marked samples: the width rule, then the distance rule.
pub open spec fn detected(s: Seq<MarkedSample>, cfg: DetectionConfig) -> Seq<Peak> {
    thin(
        wide_candidates(s, cfg.min_event_width as nat, s.len()),
        cfg.min_event_distance as nat,
    )
}

/// Finds the peaks of a marked, rectified signal.
pub fn detect_peaks(samples: &Vec<MarkedSample>, cfg: &DetectionConfig) -> (r: Vec<Peak>)
    ensures
        r@ == detected(samples@, *cfg),
        increasing(r@),
        spaced(r@, cfg.min_event_distance as nat),
        forall|j: int|
            0 <= j < r@.len() ==> {
                let p = #[trigger] r@[j];
                &&& p.index < samples@.len()
                &&& samples@[p.index as int].above
                &&& p.level == samples@[p.index as int].level
                &&& wide_at(samples@, p.index as int, cfg.min_event_width as nat)
            },
        samples@.len() == 0 ==> r@.len() == 0,
{
    let ghost s = samples@;
    let n = samples.len();
    let candidates = wide_peaks(samples, cfg.min_event_width);
    let r = suppress_close(&candidates, cfg.min_event_distance);
    proof {
        assert(s.len() == n);
        lemma_detected_shape(s, *cfg);
    }
    r
}

proof fn lemma_detected_shape(s: Seq<MarkedSample>, cfg: DetectionConfig)
    requires
        s.len() <= usize::MAX,
    ensures
        increasing(detected(s, cfg)),
        spaced(detected(s, cfg), cfg.min_event_distance as nat),
        forall|j: int|
            0 <= j < detected(s, cfg).len() ==> {
                let p = #[trigger] detected(s, cfg)[j];
                &&& p.index < s.len()
                &&& s[p.index as int].above
                &&& p.level == s[p.index as int].level
                &&& wide_at(s, p.index as int, cfg.min_event_width as nat)
            },
        s.len() == 0 ==> detected(s, cfg).len() == 0,
{
    let w = cfg.min_event_width as nat;
    let c = wide_candidates(s, w, s.len());
    lemma_wide_candidates_shape(s, w, s.len());
    lemma_thin_shape(c, cfg.min_event_distance as nat);
    let r = detected(s, cfg);
    assert forall|j: int| 0 <= j < r.len() implies {
        let p = #[trigger] r[j];
        &&& p.index < s.len()
        &&& s[p.index as int].above
        &&& p.level == s[p.index as int].level
        &&& wide_at(s, p.index as int, w)
    } by {
        let k = choose|k: int| 0 <= k < c.len() && c[k] == r[j];
        assert(wide_at(s, c[k].index as int, w));
        let (a, b) = choose|a: int, b: int|
            0 <= a <= c[k].index < b <= s.len() && b - a >= w && #[trigger]
            run_above(s, a, b);
        assert(s[c[k].index as int].above);
    }
}

/// Detects the peaks of a marked, rectified signal and classifies them.
pub fn detect_events(samples: &Vec<MarkedSample>, cfg: &DetectionConfig) -> (r: EventSummary)
    ensures
        r.events@.len() == detected(samples@, *cfg).len(),
        forall|i: int|
            0 <= i < r.events@.len() ==> (#[trigger] r.events@[i]).peak == detected(
                samples@,
                *cfg,
            )[i] && r.events@[i].tag == tag_at(
                detected(samples@, *cfg),
                i,
                cfg.min_event_distance as nat,
            ),
        r.total_count == detected(samples@, *cfg).len(),
        r.fractionated_count == fractionated_count_of(
            detected(samples@, *cfg),
            cfg.min_event_distance as nat,
            detected(samples@, *cfg).len(),
        ),
{
    let peaks = detect_peaks(samples, cfg);
    classify(&peaks, cfg.min_event_distance)
}

/// Retained peaks are never closer than the refractory distance, so a detected
/// event is fractionated exactly when it lies that distance after the previous one.
pub proof fn lemma_detected_fractionated_at_distance(
    s: Seq<MarkedSample>,
    cfg: DetectionConfig,
    i: int,
)
    requires
        s.len() <= usize::MAX,
        0 < i < detected(s, cfg).len(),
    ensures
        (tag_at(detected(s, cfg), i, cfg.min_event_distance as nat) == EventTag::Fractionated)
            <==> detected(s, cfg)[i].index == detected(s, cfg)[i - 1].index
            + cfg.min_event_distance,
{
    lemma_detected_shape(s, cfg);
    assert(detected(s, cfg)[i].index >= detected(s, cfg)[i - 1].index + cfg.min_event_distance);
}

} // verus!
