//! Progress of a long search, in chunks of divisor indices. The progress state
//! decides when a tick is due; whoever owns the progress display shows it.

use crate::arithmetic::{div_rem, less, sum, to_u64};
use crate::natural::{integer, integers, Natural};
use vstd::arithmetic::div_mod::{
    lemma_basic_div, lemma_div_is_ordered, lemma_div_multiples_vanish, lemma_div_pos_is_pos,
    lemma_fundamental_div_mod,
};
use vstd::prelude::*;

verus! {

/// The largest count that the progress display can hold.
pub open spec fn word_max() -> int {
    0xffff_ffff_ffff_ffff
}

/// The number of divisor indices in one chunk: the candidate divided by the
/// largest machine-word count, rounded up.
pub open spec fn chunk_size_for(n: int) -> int {
    if n % word_max() == 0 {
        n / word_max()
    } else {
        n / word_max() + 1
    }
}

/// The length of the progress display: the candidate itself, capped at the
/// largest machine-word count.
pub open spec fn chunk_count_for(n: int) -> int {
    if n < word_max() {
        n
    } else {
        word_max()
    }
}

/// The chunk that divisor index `k` falls into.
pub open spec fn chunk_of(k: int, size: int) -> int {
    k / size
}

/// The integers from `from` up to, not including, `to`.
pub open spec fn span(from: int, to: int) -> Seq<int> {
    Seq::new((to - from) as nat, |i: int| from + i)
}

/// Every index of the list is a divisor index of the candidate `n`: at least 1
/// and at most `n`.
pub open spec fn fits(indices: Seq<int>, n: int) -> bool {
    forall|i: int| 0 <= i < indices.len() ==> 1 <= #[trigger] indices[i] <= n
}

/// The progress of a search, as plain numbers.
pub struct ProgressView {
    /// The candidate under test.
    pub candidate: int,
    /// The number of divisor indices per chunk.
    pub chunk_size: int,
    /// The length of the progress display.
    pub chunk_count: int,
    /// The highest chunk seen so far.
    pub highest: int,
    /// The ticks emitted so far.
    pub ticks: int,
}

impl ProgressView {
    /// The state at the start of the search for candidate `n`.
    pub open spec fn initial(n: int) -> ProgressView {
        ProgressView {
            candidate: n,
            chunk_size: chunk_size_for(n),
            chunk_count: chunk_count_for(n),
            highest: 0,
            ticks: 0,
        }
    }

    /// The sizes fit the candidate, and the ticks never outrun the highest chunk
    /// seen, which never outruns the display.
    pub open spec fn well_formed(self) -> bool {
        &&& self.candidate >= 1
        &&& self.chunk_size == chunk_size_for(self.candidate)
        &&& self.chunk_count == chunk_count_for(self.candidate)
        &&& 0 <= self.ticks <= self.highest <= self.chunk_count
    }

    /// Whether reporting index `k` crosses into a chunk not seen before.
    pub open spec fn ticks_on(self, k: int) -> bool {
        chunk_of(k, self.chunk_size) > self.highest
    }

    /// The state after index `k` was reported.
    pub open spec fn after(self, k: int) -> ProgressView {
        if self.ticks_on(k) {
            ProgressView { highest: chunk_of(k, self.chunk_size), ticks: self.ticks + 1, ..self }
        } else {
            self
        }
    }

    /// The state after the indices of `reported` were reported one by one.
    pub open spec fn after_all(self, reported: Seq<int>) -> ProgressView
        decreases reported.len(),
    {
        if reported.len() == 0 {
            self
        } else {
            self.after_all(reported.drop_last()).after(reported.last())
        }
    }
}

/// Decides, index by index, whether a progress tick is due. It holds the highest
/// chunk that any worker has reported; a tick is due only when an index falls
/// into a higher one.
pub struct ProgressState {
    candidate: Natural,
    chunk_size: Natural,
    chunk_count: u64,
    highest: Natural,
    ticks: u64,
}

impl View for ProgressState {
    type V = ProgressView;

    closed spec fn view(&self) -> ProgressView {
        ProgressView {
            candidate: integer(self.candidate),
            chunk_size: integer(self.chunk_size),
            chunk_count: self.chunk_count as int,
            highest: integer(self.highest),
            ticks: self.ticks as int,
        }
    }
}

/// The chunk size for a candidate.
pub fn chunk_size(number: &Natural) -> (size: Natural)
    ensures
        integer(size) == chunk_size_for(integer(*number)),
{
    let max = Natural::from_u64(u64::MAX);
    let zero = Natural::from_u64(0);
    let (q, r) = div_rem(number, &max);
    if less(&zero, &r) {
        let one = Natural::from_u64(1);
        sum(&q, &one)
    } else {
        q
    }
}

/// The length of the progress display for a candidate.
pub fn chunk_count(number: &Natural) -> (count: u64)
    ensures
        count == chunk_count_for(integer(*number)),
{
    match to_u64(number) {
        Some(count) => count,
        None => u64::MAX,
    }
}

/// The chunk that a divisor index falls into.
pub fn chunk_index(index: &Natural, size: &Natural) -> (chunk: Natural)
    requires
        integer(*size) > 0,
    ensures
        integer(chunk) == chunk_of(integer(*index), integer(*size)),
{
    let (q, _) = div_rem(index, size);
    q
}

impl ProgressState {
    #[verifier::type_invariant]
    spec fn consistent(self) -> bool {
        self@.well_formed()
    }

    /// The state at the start of the search on `number`: no chunk seen, no tick
    /// emitted.
    pub fn new(number: &Natural) -> (state: ProgressState)
        requires
            integer(*number) >= 1,
        ensures
            state@ == ProgressView::initial(integer(*number)),
            state@.well_formed(),
    {
        proof {
            lemma_initial_state_is_well_formed(integer(*number));
        }
        ProgressState {
            candidate: number.duplicate(),
            chunk_size: chunk_size(number),
            chunk_count: chunk_count(number),
            highest: Natural::from_u64(0),
            ticks: 0,
        }
    }

    /// Reports that a worker is done with `index`. Returns whether a tick is due:
    /// that is so exactly when the index falls into a chunk above every chunk seen
    /// so far. The count of ticks never falls and never exceeds the length of the
    /// display.
    pub fn observe(&mut self, index: &Natural) -> (tick: bool)
        requires
            1 <= integer(*index) <= old(self)@.candidate,
        ensures
            tick == old(self)@.ticks_on(integer(*index)),
            final(self)@ == old(self)@.after(integer(*index)),
            final(self)@.well_formed(),
            old(self)@.ticks <= final(self)@.ticks <= final(self)@.chunk_count,
    {
        proof {
            use_type_invariant(&*self);
            lemma_step_keeps_state_well_formed(self@, integer(*index));
        }
        let chunk = chunk_index(index, &self.chunk_size);
        if less(&self.highest, &chunk) {
            self.highest = chunk;
            self.ticks = self.ticks + 1;
            true
        } else {
            false
        }
    }

    /// Reports that the workers are done with the indices of a list, one after the
    /// other. Returns the number of ticks that are due.
    pub fn observe_all(&mut self, indices: &Vec<Natural>) -> (ticks: u64)
        requires
            fits(integers(indices@), old(self)@.candidate),
        ensures
            final(self)@ == old(self)@.after_all(integers(indices@)),
            final(self)@.well_formed(),
            final(self)@.candidate == old(self)@.candidate,
            ticks == final(self)@.ticks - old(self)@.ticks,
            ticks <= indices@.len(),
            final(self)@.ticks <= final(self)@.chunk_count,
    {
        let ghost reported = integers(indices@);
        let mut ticks: u64 = 0;
        let mut i: usize = 0;
        proof {
            use_type_invariant(&*self);
        }
        while i < indices.len()
            invariant
                i <= indices@.len(),
                reported == integers(indices@),
                fits(reported, old(self)@.candidate),
                self@ == old(self)@.after_all(reported.take(i as int)),
                self@.well_formed(),
                self@.candidate == old(self)@.candidate,
                ticks == self@.ticks - old(self)@.ticks,
                ticks <= i,
            decreases indices@.len() - i,
        {
            proof {
                assert(reported[i as int] == integer(indices@[i as int]));
                assert(reported.take(i + 1).drop_last() =~= reported.take(i as int));
            }
            if self.observe(&indices[i]) {
                ticks = ticks + 1;
            }
            i = i + 1;
        }
        proof {
            assert(reported.take(i as int) =~= reported);
        }
        ticks
    }

    /// The ticks emitted so far.
    pub fn ticks(&self) -> (count: u64)
        ensures
            count == self@.ticks,
            count <= self@.chunk_count,
    {
        proof {
            use_type_invariant(self);
        }
        self.ticks
    }

    /// The length that the progress display is created with.
    pub fn chunk_count(&self) -> (count: u64)
        ensures
            count == self@.chunk_count,
            count == chunk_count_for(self@.candidate),
    {
        proof {
            use_type_invariant(self);
        }
        self.chunk_count
    }
}

/// A chunk holds at least one index, and the highest chunk that an index up to
/// the candidate can fall into is within the length of the display.
pub proof fn lemma_chunks_fit_display(n: int, k: int)
    requires
        n >= 1,
        0 <= k <= n,
    ensures
        chunk_size_for(n) >= 1,
        0 <= chunk_of(k, chunk_size_for(n)) <= chunk_count_for(n),
{
    let max = word_max();
    let size = chunk_size_for(n);
    lemma_fundamental_div_mod(n, max);
    lemma_div_pos_is_pos(n, max);
    assert(size * max >= n) by (nonlinear_arith)
        requires
            n == max * (n / max) + n % max,
            0 <= n % max < max,
            size == if n % max == 0 {
                n / max
            } else {
                n / max + 1
            },
    ;
    lemma_div_pos_is_pos(k, size);
    lemma_div_is_ordered(k, n, size);
    if n >= max {
        lemma_div_is_ordered(n, size * max, size);
        lemma_div_multiples_vanish(max, size);
    }
}

/// The state at the start of a search is well formed.
pub proof fn lemma_initial_state_is_well_formed(n: int)
    requires
        n >= 1,
    ensures
        ProgressView::initial(n).well_formed(),
{
    lemma_chunks_fit_display(n, 0);
}

/// Reporting an index keeps the state well formed, whatever the order in which
/// the workers report: the count of ticks does not fall, rises by at most one,
/// and stays within the length of the display.
pub proof fn lemma_step_keeps_state_well_formed(state: ProgressView, k: int)
    requires
        state.well_formed(),
        0 <= k <= state.candidate,
    ensures
        state.after(k).well_formed(),
        state.ticks <= state.after(k).ticks <= state.ticks + 1,
        state.highest <= state.after(k).highest,
        state.after(k).ticks <= state.chunk_count,
        state.after(k).chunk_count == state.chunk_count,
        state.after(k).candidate == state.candidate,
{
    lemma_chunks_fit_display(state.candidate, k);
}

/// Over any run of reports, in any order and with any repetitions, the count of
/// ticks never falls and never exceeds the length of the display.
pub proof fn lemma_ticks_are_monotone_and_bounded(state: ProgressView, reported: Seq<int>)
    requires
        state.well_formed(),
        forall|i: int| 0 <= i < reported.len() ==> 0 <= #[trigger] reported[i] <= state.candidate,
    ensures
        state.after_all(reported).well_formed(),
        state.after_all(reported).candidate == state.candidate,
        state.after_all(reported).chunk_count == state.chunk_count,
        state.ticks <= state.after_all(reported).ticks <= state.chunk_count,
        state.after_all(reported).ticks <= state.ticks + reported.len(),
    decreases reported.len(),
{
    if reported.len() > 0 {
        let earlier = reported.drop_last();
        lemma_ticks_are_monotone_and_bounded(state, earlier);
        lemma_step_keeps_state_well_formed(state.after_all(earlier), reported.last());
    }
}

/// Reports made in two runs, one after the other, come to the same as the
/// reports of both made in one run.
pub proof fn lemma_reports_add_up(state: ProgressView, first: Seq<int>, second: Seq<int>)
    ensures
        state.after_all(first + second) == state.after_all(first).after_all(second),
    decreases second.len(),
{
    if second.len() == 0 {
        assert(first + second =~= first);
    } else {
        lemma_reports_add_up(state, first, second.drop_last());
        assert((first + second).drop_last() =~= first + second.drop_last());
    }
}

/// Neighbouring indices fall into the same chunk or into neighbouring chunks.
pub proof fn lemma_chunks_rise_by_steps(k: int, size: int)
    requires
        k >= 1,
        size >= 1,
    ensures
        chunk_of(k - 1, size) <= chunk_of(k, size) <= chunk_of(k - 1, size) + 1,
{
    lemma_fundamental_div_mod(k, size);
    lemma_fundamental_div_mod(k - 1, size);
    lemma_div_is_ordered(k - 1, k, size);
    let low = (k - 1) / size;
    let high = k / size;
    assert(high <= low + 1) by (nonlinear_arith)
        requires
            k == size * high + k % size,
            k - 1 == size * low + (k - 1) % size,
            0 <= k % size < size,
            0 <= (k - 1) % size < size,
            size >= 1,
    ;
}

/// When the indices are reported in ascending order from 1 on, there is exactly
/// one tick for every chunk that the reports have reached: after the indices up
/// to `last`, both the highest chunk seen and the count of ticks are the chunk of
/// `last`.
pub proof fn lemma_one_tick_per_chunk(n: int, last: int)
    requires
        n >= 1,
        0 <= last <= n,
    ensures
        ProgressView::initial(n).after_all(span(1, last + 1)).highest == chunk_of(
            last,
            chunk_size_for(n),
        ),
        ProgressView::initial(n).after_all(span(1, last + 1)).ticks == chunk_of(
            last,
            chunk_size_for(n),
        ),
        ProgressView::initial(n).after_all(span(1, last + 1)).chunk_size
            == chunk_size_for(n),
    decreases last,
{
    let size = chunk_size_for(n);
    let reported = span(1, last + 1);
    lemma_chunks_fit_display(n, last);
    if last == 0 {
        assert(reported =~= Seq::<int>::empty());
        lemma_basic_div(0, size);
    } else {
        lemma_one_tick_per_chunk(n, last - 1);
        assert(reported.drop_last() =~= span(1, last));
        assert(reported.last() == last);
        lemma_chunks_rise_by_steps(last, size);
    }
}

} // verus!
