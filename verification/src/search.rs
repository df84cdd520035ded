//! A search in progress. The divisor indices are visited batch by batch, in
//! ascending order; within a batch they go to the workers all at once. After
//! each batch the search says how many progress ticks are due, or that it is
//! over and with what verdict.

use crate::arithmetic::{less, sum};
use crate::calc::{
    has_factor_at, lemma_engine_decides_primality, lemma_exhausted_search_is_over,
    lemma_factor_refutes_prime, lemma_merged_outcome_is_the_highest, merged_outcome, outcome_at,
    screen, screened_verdict, SearchOutcome,
};
use crate::natural::{integer, integers, Natural};
use crate::primes::is_prime;
use crate::progress::{
    chunk_count_for, chunk_of, chunk_size_for, lemma_one_tick_per_chunk, lemma_reports_add_up, span,
    ProgressState, ProgressView,
};
use crate::workers::probe_all;
use vstd::prelude::*;

verus! {

/// The largest number of divisor indices that go to the workers at once.
pub const BATCH: u64 = 256;

/// What a search says after a batch.
#[derive(Clone, Copy, Debug, PartialEq, Eq, Structural)]
pub enum Step {
    /// The batch brought no end: the search goes on, and so many progress ticks
    /// are due.
    Ticks(u64),
    /// The search is over: the candidate is prime, or it is not.
    Verdict(bool),
}

/// A search, as plain values.
pub struct SearchView {
    /// The candidate.
    pub number: int,
    /// The first divisor index that has not been visited.
    pub next: int,
    /// Whether progress is reported.
    pub reporting: bool,
    /// The progress made.
    pub progress: ProgressView,
    /// The verdict, once the search is over.
    pub settled: Option<bool>,
}

impl SearchView {
    /// The search on `n` before any index was visited.
    pub open spec fn initial(n: int, reporting: bool) -> SearchView {
        SearchView {
            number: n,
            next: 1,
            reporting,
            progress: ProgressView::initial(n),
            settled: None,
        }
    }

    /// The candidate needs a search, every index visited so far told to go on, and
    /// a verdict, once there is one, says whether the candidate is prime.
    pub open spec fn well_formed(self) -> bool {
        &&& self.number >= 0
        &&& screened_verdict(self.number) is None
        &&& 1 <= self.next <= self.number
        &&& forall|k: int|
            1 <= k < self.next ==> #[trigger] outcome_at(self.number, k)
                == SearchOutcome::Continuing
        &&& self.progress.well_formed()
        &&& self.progress.candidate == self.number
        &&& self.progress == self.progress_so_far()
        &&& (self.settled matches Some(verdict) ==> verdict == is_prime(self.number))
    }

    /// The progress that belongs to the place of the search: every index visited
    /// so far was reported, in ascending order, if progress is reported at all.
    pub open spec fn progress_so_far(self) -> ProgressView {
        if self.reporting {
            ProgressView::initial(self.number).after_all(span(1, self.next))
        } else {
            ProgressView::initial(self.number)
        }
    }

    /// Where the next batch ends: a full batch further, or just past the last
    /// index, which is the candidate itself.
    pub open spec fn batch_end(self) -> int {
        if self.next + BATCH <= self.number {
            self.next + BATCH
        } else {
            self.number + 1
        }
    }

    /// What the workers find in the next batch.
    pub open spec fn batch_outcome(self) -> SearchOutcome {
        merged_outcome(self.number, span(self.next, self.batch_end()))
    }

    /// The search after one more step. A search that is over stays as it is. A
    /// batch that holds a factor settles the search as composite; one that holds
    /// none but reaches the end of the range settles it as prime. Any other batch
    /// moves the search on to its end, and its indices are reported if progress
    /// is reported at all.
    pub open spec fn after_step(self) -> SearchView {
        if self.settled is Some {
            self
        } else if self.batch_outcome() == SearchOutcome::Continuing {
            SearchView {
                next: self.batch_end(),
                progress: if self.reporting {
                    self.progress.after_all(span(self.next, self.batch_end()))
                } else {
                    self.progress
                },
                ..self
            }
        } else {
            SearchView { settled: Some(self.batch_outcome().is_prime_verdict()), ..self }
        }
    }

    /// What the search says at its next step: its verdict, as soon as it has one,
    /// and else the number of ticks that the reports of the batch asked for.
    pub open spec fn step(self) -> Step {
        match self.after_step().settled {
            Some(verdict) => Step::Verdict(verdict),
            None => Step::Ticks((self.after_step().progress.ticks - self.progress.ticks) as u64),
        }
    }

    /// The number of indices that the search may still have to visit.
    pub open spec fn remaining(self) -> int {
        self.number - self.next
    }
}

/// A search in progress.
pub struct Search {
    number: Natural,
    next: Natural,
    reporting: bool,
    progress: ProgressState,
    settled: Option<bool>,
}

/// How a search begins.
pub enum Begin {
    /// The screening has settled the candidate.
    Settled(bool),
    /// Only a search can tell.
    Searching(Search),
}

impl View for Search {
    type V = SearchView;

    closed spec fn view(&self) -> SearchView {
        SearchView {
            number: integer(self.number),
            next: integer(self.next),
            reporting: self.reporting,
            progress: self.progress@,
            settled: self.settled,
        }
    }
}

/// The divisor indices from `first` on: as many as a batch holds, but none above
/// `last`.
fn batch(first: &Natural, last: &Natural) -> (indices: Vec<Natural>)
    requires
        integer(*first) <= integer(*last),
    ensures
        1 <= indices@.len() <= BATCH,
        integer(*first) + indices@.len() - 1 <= integer(*last),
        indices@.len() == BATCH || integer(*first) + indices@.len() - 1 == integer(*last),
        integers(indices@) == span(integer(*first), integer(*first) + indices@.len()),
{
    let mut indices: Vec<Natural> = Vec::new();
    indices.push(first.duplicate());
    let mut offset: u64 = 1;
    while offset < BATCH
        invariant
            1 <= offset <= BATCH,
            offset == indices@.len(),
            integer(*first) + offset - 1 <= integer(*last),
            integers(indices@) == span(integer(*first), integer(*first) + offset),
        ensures
            offset == BATCH || integer(*first) + offset - 1 == integer(*last),
        decreases BATCH - offset,
    {
        let step = Natural::from_u64(offset);
        let index = sum(first, &step);
        if less(last, &index) {
            break;
        }
        let ghost before = indices@;
        indices.push(index);
        offset = offset + 1;
        assert(integers(indices@) =~= span(integer(*first), integer(*first) + offset)) by {
            assert forall|i: int| 0 <= i < indices@.len() implies integers(indices@)[i]
                == integer(*first) + i by {
                if i < before.len() {
                    assert(integers(before)[i] == integer(*first) + i);
                }
            }
        }
    }
    indices
}

impl Search {
    /// Begins with a candidate: the screening settles it, or a search is set up
    /// with no index visited. With `reporting`, the search keeps track of the
    /// progress ticks that are due; without, it leaves that step out.
    pub fn begin(number: &Natural, reporting: bool) -> (begin: Begin)
        ensures
            match begin {
                Begin::Settled(verdict) => Some(verdict) == screened_verdict(integer(*number)),
                Begin::Searching(search) => screened_verdict(integer(*number)) is None
                    && search@ == SearchView::initial(integer(*number), reporting),
            },
            begin matches Begin::Settled(verdict) ==> verdict == is_prime(integer(*number)),
            begin matches Begin::Searching(search) ==> search@.well_formed(),
    {
        proof {
            lemma_engine_decides_primality(integer(*number));
        }
        match screen(number) {
            Some(verdict) => Begin::Settled(verdict),
            None => Begin::Searching(
                Search {
                    number: number.duplicate(),
                    next: Natural::from_u64(1),
                    reporting,
                    progress: ProgressState::new(number),
                    settled: None,
                },
            ),
        }
    }

    /// Hands the next batch of divisor indices to the workers. A factor in the
    /// batch, or the end of the range, ends the search with a verdict, which is
    /// whether the candidate is prime; every later call repeats it. Otherwise the
    /// search has moved on by the batch, and the ticks that are due for it are
    /// returned: none unless progress is reported.
    pub fn advance(&mut self) -> (step: Step)
        requires
            old(self)@.well_formed(),
        ensures
            final(self)@.well_formed(),
            final(self)@ == old(self)@.after_step(),
            step == old(self)@.step(),
            step is Ticks ==> final(self)@.remaining() < old(self)@.remaining(),
    {
        match self.settled {
            Some(verdict) => {
                return Step::Verdict(verdict);
            },
            None => {},
        }
        let ghost n = integer(self.number);
        let ghost first = integer(self.next);
        let indices = batch(&self.next, &self.number);
        let ghost visited = integers(indices@);
        assert forall|i: int| 0 <= i < indices@.len() implies 1 <= integer(
            #[trigger] indices@[i],
        ) <= n by {
            assert(visited[i] == first + i);
        }
        let merged = probe_all(&self.number, &indices);
        proof {
            lemma_merged_outcome_is_the_highest(n, visited);
            lemma_engine_decides_primality(n);
        }
        match merged {
            SearchOutcome::HasFactor => {
                proof {
                    let i = choose|i: int|
                        0 <= i < visited.len() && merged == #[trigger] outcome_at(n, visited[i]);
                    lemma_factor_refutes_prime(n, visited[i]);
                }
                self.settled = Some(false);
                Step::Verdict(false)
            },
            SearchOutcome::ExhaustedNoFactor => {
                proof {
                    let i = choose|i: int|
                        0 <= i < visited.len() && merged == #[trigger] outcome_at(n, visited[i]);
                    let last = visited[i];
                    assert forall|k: int| 1 <= k < last implies !#[trigger] has_factor_at(n, k) by {
                        if k >= first {
                            assert(outcome_at(n, visited[k - first]).rank() <= merged.rank());
                        } else {
                            assert(outcome_at(n, k) == SearchOutcome::Continuing);
                        }
                    }
                    lemma_exhausted_search_is_over(n, last);
                }
                self.settled = Some(true);
                Step::Verdict(true)
            },
            SearchOutcome::Continuing => {
                let count = Natural::from_u64(indices.len() as u64);
                let next = sum(&self.next, &count);
                proof {
                    assert forall|k: int| 1 <= k < integer(next) implies #[trigger] outcome_at(n, k)
                        == SearchOutcome::Continuing by {
                        if k >= first {
                            assert(outcome_at(n, visited[k - first]).rank() <= merged.rank());
                        }
                    }
                }
                proof {
                    lemma_reports_add_up(
                        ProgressView::initial(n),
                        span(1, first),
                        span(first, integer(next)),
                    );
                    assert(span(1, first) + span(first, integer(next)) =~= span(1, integer(next)));
                }
                let ticks = if self.reporting {
                    self.progress.observe_all(&indices)
                } else {
                    0
                };
                self.next = next;
                Step::Ticks(ticks)
            },
        }
    }

    /// The length that a progress display for this search is created with.
    pub fn chunk_count(&self) -> (count: u64)
        ensures
            count == self@.progress.chunk_count,
    {
        self.progress.chunk_count()
    }

    /// The progress ticks that the search has asked for so far.
    pub fn ticks(&self) -> (count: u64)
        ensures
            count == self@.progress.ticks,
            count <= self@.progress.chunk_count,
    {
        self.progress.ticks()
    }
}

/// The ticks that a search has asked for are one for every chunk that it has
/// reached: the chunk of the last index visited, where progress is reported, and
/// none where it is not. They never exceed the length of the display.
pub proof fn lemma_ticks_of_a_search(search: SearchView)
    requires
        search.well_formed(),
    ensures
        search.progress.ticks == if search.reporting {
            chunk_of(search.next - 1, chunk_size_for(search.number))
        } else {
            0
        },
        search.progress.ticks <= search.progress.chunk_count,
        search.progress.chunk_count == chunk_count_for(search.number),
{
    lemma_one_tick_per_chunk(search.number, search.next - 1);
}

} // verus!
