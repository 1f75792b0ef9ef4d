use vstd::prelude::*;

use crate::types::{Event, EventTag, Peak};

verus! {

/// The tag of the `i`-th peak: fractionated when the gap to the previous peak
/// is at most `d` samples; the first peak is isolated.
pub open spec fn tag_at(peaks: Seq<Peak>, i: int, d: nat) -> EventTag {
    if i > 0 && peaks[i].index as int - peaks[i - 1].index as int <= d as int {
        EventTag::Fractionated
    } else {
        EventTag::Isolated
    }
}

/// Number of fractionated peaks among the first `n` peaks.
pub open spec fn fractionated_count_of(peaks: Seq<Peak>, d: nat, n: nat) -> nat
    decreases n,
{
    if n == 0 {
        0
    } else {
        fractionated_count_of(peaks, d, (n - 1) as nat) + if tag_at(peaks, n - 1, d)
            == EventTag::Fractionated {
            1nat
        } else {
            0nat
        }
    }
}

proof fn lemma_fractionated_count_bound(peaks: Seq<Peak>, d: nat, n: nat)
    ensures
        fractionated_count_of(peaks, d, n) <= n,
    decreases n,
{
    if n > 0 {
        lemma_fractionated_count_bound(peaks, d, (n - 1) as nat);
    }
}

/// The outcome of classifying a sequence of peaks.
pub struct EventSummary {
    pub events: Vec<Event>,
    pub total_count: usize,
    pub fractionated_count: usize,
}

/// Tags each peak, in order, as isolated or fractionated, and counts them.
pub fn classify(peaks: &Vec<Peak>, min_event_distance: usize) -> (r: EventSummary)
    ensures
        r.events@.len() == peaks@.len(),
        forall|i: int|
            0 <= i < peaks@.len() ==> (#[trigger] r.events@[i]).peak == peaks@[i]
                && r.events@[i].tag == tag_at(peaks@, i, min_event_distance as nat),
        r.total_count == peaks@.len(),
        r.fractionated_count == fractionated_count_of(
            peaks@,
            min_event_distance as nat,
            peaks@.len(),
        ),
{
    let ghost d = min_event_distance as nat;
    let mut events: Vec<Event> = Vec::new();
    let mut fractionated: usize = 0;
    let mut i: usize = 0;
    while i < peaks.len()
        invariant
            i <= peaks@.len(),
            d == min_event_distance as nat,
            events@.len() == i,
            forall|j: int|
                0 <= j < i ==> (#[trigger] events@[j]).peak == peaks@[j] && events@[j].tag
                    == tag_at(peaks@, j, d),
            fractionated == fractionated_count_of(peaks@, d, i as nat),
        decreases peaks@.len() - i,
    {
        let p = peaks[i];
        let close = i > 0 && {
            let q = peaks[i - 1];
            p.index >= q.index && p.index - q.index <= min_event_distance || p.index < q.index
        };
        let tag = if close {
            EventTag::Fractionated
        } else {
            EventTag::Isolated
        };
        proof {
            lemma_fractionated_count_bound(peaks@, d, i as nat);
        }
        if close {
            fractionated = fractionated + 1;
        }
        events.push(Event { peak: p, tag });
        i = i + 1;
    }
    EventSummary { events, total_count: peaks.len(), fractionated_count: fractionated }
}

/// Two peaks exactly `d` samples apart are fractionated; one sample further
/// apart they are isolated.
pub proof fn lemma_classification_boundary(a: Peak, b: Peak, c: Peak, d: nat)
    requires
        b.index == a.index + d,
        c.index == a.index + d + 1,
    ensures
        tag_at(seq![a, b], 1, d) == EventTag::Fractionated,
        tag_at(seq![a, c], 1, d) == EventTag::Isolated,
        tag_at(seq![a, b], 0, d) == EventTag::Isolated,
{
}

} // verus!
