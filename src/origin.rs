//! Decisions of the settlement origin search.
//!
//! Each attempt draws a batch of candidate points in the central part of the
//! domain; the caller looks up their elevations and hands them over. An
//! elevation arrives as an order key: an integer that orders candidates as
//! their elevations do. A point outside the terrain has no elevation (`None`).
use vstd::prelude::*;

verus! {

/// A candidate qualifies when it has an elevation of at least `min_elevation`.
pub open spec fn admissible(c: Option<i64>, min_elevation: i64) -> bool {
    c matches Some(e) && e >= min_elevation
}

/// `i` is the first qualifying candidate of least elevation.
pub open spec fn is_lowest_admissible(candidates: Seq<Option<i64>>, min_elevation: i64, i: int) -> bool {
    &&& 0 <= i < candidates.len()
    &&& admissible(candidates[i], min_elevation)
    &&& forall|j: int|
        0 <= j < candidates.len() && admissible(#[trigger] candidates[j], min_elevation) ==> {
            &&& candidates[i]->0 <= candidates[j]->0
            &&& j < i ==> candidates[i]->0 < candidates[j]->0
        }
}

/// Some candidate of the batch qualifies.
pub open spec fn any_admissible(candidates: Seq<Option<i64>>, min_elevation: i64) -> bool {
    exists|j: int| 0 <= j < candidates.len() && admissible(#[trigger] candidates[j], min_elevation)
}

/// Picks, among the candidates with an elevation of at least
/// `min_elevation`, the first one of least elevation: settlements are
/// founded on livable land as close to the sea as possible.
pub fn lowest_admissible(candidates: &Vec<Option<i64>>, min_elevation: i64) -> (r: Option<usize>)
    ensures
        r.is_none() <==> !any_admissible(candidates@, min_elevation),
        r matches Some(i) ==> is_lowest_admissible(candidates@, min_elevation, i as int),
{
    let mut best: Option<usize> = None;
    let mut best_elevation: i64 = 0;
    let mut j: usize = 0;
    while j < candidates.len()
        invariant
            j <= candidates@.len(),
            best.is_none() <==> forall|m: int|
                0 <= m < j ==> !admissible(#[trigger] candidates@[m], min_elevation),
            best matches Some(i) ==> {
                &&& i < j
                &&& admissible(candidates@[i as int], min_elevation)
                &&& candidates@[i as int]->0 == best_elevation
                &&& forall|m: int|
                    0 <= m < j && admissible(#[trigger] candidates@[m], min_elevation) ==> {
                        &&& best_elevation <= candidates@[m]->0
                        &&& m < i ==> best_elevation < candidates@[m]->0
                    }
            },
        decreases candidates@.len() - j,
    {
        if let Some(e) = candidates[j] {
            if e >= min_elevation {
                let better = match best {
                    None => true,
                    Some(_) => e < best_elevation,
                };
                if better {
                    best = Some(j);
                    best_elevation = e;
                }
            }
        }
        j = j + 1;
    }
    best
}

/// What the search asks of its caller next.
pub enum OriginStep {
    /// Draw a new batch of candidates and hand it to `observe`.
    Sample,
    /// The candidate at this index of the last batch is the origin.
    Found(usize),
    /// Every attempt is spent without a qualifying candidate.
    GiveUp,
}

/// State of an origin search that makes at most `max_retries` attempts.
pub struct OriginSearch {
    pub max_retries: usize,
    pub attempts: usize,
    pub min_elevation: i64,
}

impl OriginSearch {
    /// The step that follows when the last batch held no qualifying
    /// candidate (or before the first batch).
    pub open spec fn next_step(self) -> OriginStep {
        if self.attempts < self.max_retries {
            OriginStep::Sample
        } else {
            OriginStep::GiveUp
        }
    }

    /// A search that has made no attempt yet.
    pub fn new(max_retries: usize, min_elevation: i64) -> (r: OriginSearch)
        ensures
            r == (OriginSearch { max_retries, attempts: 0, min_elevation }),
    {
        OriginSearch { max_retries, attempts: 0, min_elevation }
    }

    /// The first step: sample when an attempt is left, give up otherwise.
    pub fn start(&self) -> (r: OriginStep)
        ensures
            r == self.next_step(),
    {
        if self.attempts < self.max_retries {
            OriginStep::Sample
        } else {
            OriginStep::GiveUp
        }
    }

    /// Takes the elevations of one batch of candidates. The search succeeds
    /// with the lowest qualifying candidate when there is one; otherwise it
    /// asks for another batch while attempts remain.
    pub fn observe(&mut self, candidates: &Vec<Option<i64>>) -> (r: OriginStep)
        requires
            old(self).attempts < old(self).max_retries,
        ensures
            *final(self) == (OriginSearch { attempts: (old(self).attempts + 1) as usize, ..*old(self) }),
            r matches OriginStep::Found(i) ==> is_lowest_admissible(
                candidates@,
                old(self).min_elevation,
                i as int,
            ),
            any_admissible(candidates@, old(self).min_elevation) <==> r is Found,
            !any_admissible(candidates@, old(self).min_elevation) ==> r == final(self).next_step(),
    {
        self.attempts = self.attempts + 1;
        match lowest_admissible(candidates, self.min_elevation) {
            Some(i) => OriginStep::Found(i),
            None => self.start(),
        }
    }
}

/// A candidate accepted as origin never lies below the minimum elevation.
pub proof fn lemma_origin_not_below_minimum(candidates: Seq<Option<i64>>, min_elevation: i64, i: int)
    requires
        is_lowest_admissible(candidates, min_elevation, i),
    ensures
        candidates[i] matches Some(e) && e >= min_elevation,
{
}

/// A search allowed no attempt gives up before drawing any candidate.
pub proof fn lemma_no_retries_gives_up(search: OriginSearch)
    requires
        search.max_retries == 0,
    ensures
        search.next_step() == OriginStep::GiveUp,
{
}

} // verus!
