//! Measurement state machine: the zero-crossing cycle detector with its
//! per-epoch counters, the waveform-capture window, and the two-level epoch
//! scheduler.
//!
//! Everything here is driven from outside: the sampling interrupt hands each
//! raw analog reading to [`MeasureState::on_sample`] together with the
//! current baseline threshold, and the fixed-rate timer interrupt calls
//! [`MeasureState::on_tick`]. The floating-point work (baseline smoothing,
//! squared-deviation sums, the frequency and RMS quotients) stays with the
//! caller, which receives through [`SampleOutcome`] every integer input
//! those computations need.

use vstd::prelude::*;
use crate::ring::RingBufferIndex16bit;
use crate::ring::valid_capacity_index16;
use vstd::arithmetic::div_mod::lemma_mod_multiples_vanish;
use vstd::arithmetic::div_mod::lemma_small_mod;

verus! {

/// Capacity of the waveform-capture buffer: at least one full cycle at the
/// lowest supported line frequency.
pub const WAVEFORM_MAX: usize = 512;

/// Timer interrupts per one-second epoch.
pub const TICKS_PER_SECOND: u16 = 1000;

/// Cap of the outer window counter: one-second epochs per outer window.
pub const OUTER_WINDOW_MAX: u8 = 60;

/// Outer-counter value during which the waveform of the epoch's first cycle
/// is captured.
pub const CAPTURE_WINDOW_INDEX: u8 = 1;

/// Outer-counter value from which the captured waveform is streamed out: by
/// then the capture window has closed and its data is stable.
pub const CSV2_BEGIN: u8 = 3;

/// A rising edge is accepted only within this margin above the baseline, to
/// suppress false triggers on noisy samples far from the true crossing.
pub const RISING_EDGE_MARGIN: u16 = 25;

/// A sample starts a rising edge when the previous sample was at or below
/// the baseline threshold, this one is above it, and this one is still
/// within the noise margin of the crossing point.
pub open spec fn rising_edge(sample: u16, threshold: u16, pre_polarity: bool) -> bool {
    &&& !pre_polarity
    &&& sample > threshold
    &&& (sample as int) < threshold + RISING_EDGE_MARGIN
}

/// The cycle detector's counters, as plain integers, for stating how one
/// sample changes them.
pub ghost struct CycleModel {
    /// Completed rising edges this epoch; `-1` while idle.
    pub rised: int,
    /// Samples seen since measurement started.
    pub elapsed: int,
    /// `elapsed` as captured at the most recent rising edge.
    pub measured: int,
    /// Polarity of the previous sample (above the baseline or not).
    pub pre: bool,
    /// Sum of the raw samples since measurement started.
    pub val_sum: int,
}

/// Effect of one sample on the cycle detector, exactly as `on_sample`'s
/// contract states it: a rising edge while idle starts measuring (all
/// counters and the running sum reset); a later rising edge counts one more
/// cycle and captures the elapsed count; every sample advances `elapsed`
/// and accumulates into the running sum, whose quotient with the captured
/// count is read off at each completed cycle.
pub open spec fn cycle_step(m: CycleModel, sample: u16, threshold: u16) -> CycleModel {
    let rising = rising_edge(sample, threshold, m.pre);
    let started = rising && m.rised == -1;
    CycleModel {
        rised: if started {
            0int
        } else if rising {
            m.rised + 1
        } else {
            m.rised
        },
        elapsed: (if started {
            0int
        } else {
            m.elapsed
        }) + 1,
        measured: if started {
            0int
        } else if rising {
            m.elapsed
        } else {
            m.measured
        },
        pre: sample > threshold,
        val_sum: if started {
            0int
        } else {
            m.val_sum + sample
        },
    }
}

/// The cycle detector's state after a whole stream of samples.
pub open spec fn cycle_run(m: CycleModel, samples: Seq<u16>, threshold: u16) -> CycleModel
    decreases samples.len(),
{
    if samples.len() == 0 {
        m
    } else {
        cycle_run(cycle_step(m, samples[0], threshold), samples.drop_first(), threshold)
    }
}

/// What one sample asked of the caller: which float accumulators to fold or
/// drop, and with which integer inputs.
pub struct SampleOutcome {
    /// A rising edge was detected on this sample.
    pub rising: bool,
    /// The rising edge found the detector idle: measurement (re)started and
    /// the cycle in progress is the epoch's first, partial one, whose
    /// accumulated statistics the caller must discard.
    pub started: bool,
    /// The rising edge completed a cycle: the caller folds its running
    /// squared-deviation sum into the epoch total and refreshes the epoch's
    /// running average from the quotient of the two fields below.
    pub fold_cycle: bool,
    /// Numerator of the running average: the raw-sample sum since
    /// measurement started, this edge's sample included; `0` outside a
    /// fold.
    pub epoch_val_sum: u32,
    /// Divisor of the running average: the cumulative sample count standing
    /// in `measured_count` at this edge; `0` outside a fold.
    pub epoch_sample_count: u16,
    /// This sample was enqueued into the waveform-capture buffer.
    pub captured: bool,
}

/// All state shared between the sampling interrupt, the timer interrupt and
/// the cooperative main loop, owned by one coordinating value so that each
/// context goes through narrow, contracted operations.
pub struct MeasureState {
    /// Completed rising edges this epoch; `-1` while idle. Bounded in
    /// practice by the line frequency.
    pub rised_count: i8,
    /// Samples seen since measurement started.
    pub elapsed_count: u16,
    /// `elapsed_count` as captured at the most recent rising edge; the
    /// frequency denominator.
    pub measured_count: u16,
    /// Polarity of the previous sample.
    pub pre_polarity: bool,
    /// Raw-sample sum since measurement started; the numerator of the
    /// epoch's running average.
    pub cycle_val_sum: u32,
    /// Timer ticks within the current one-second epoch.
    pub tick_counter: u16,
    /// One-second epochs within the current outer window.
    pub outer_counter: u8,
    /// Raw samples of the first cycle seen during the capture window.
    pub waveform: RingBufferIndex16bit<u16, WAVEFORM_MAX>,
}

impl MeasureState {
    /// The counters stay in their documented ranges and the capture buffer
    /// keeps its own invariant.
    pub open spec fn wf(&self) -> bool {
        &&& self.rised_count >= -1
        &&& self.tick_counter < TICKS_PER_SECOND
        &&& self.outer_counter <= OUTER_WINDOW_MAX
        &&& self.waveform.wf()
    }

    /// The cycle detector's counters as the specification's model.
    pub open spec fn cycle_model(&self) -> CycleModel {
        CycleModel {
            rised: self.rised_count as int,
            elapsed: self.elapsed_count as int,
            measured: self.measured_count as int,
            pre: self.pre_polarity,
            val_sum: self.cycle_val_sum as int,
        }
    }

    /// Startup state: idle detector, zeroed counters, empty capture buffer.
    pub fn new() -> (result: Self)
        ensures
            result.wf(),
            result.cycle_model() == (CycleModel {
                rised: -1,
                elapsed: 0,
                measured: 0,
                pre: false,
                val_sum: 0,
            }),
            result.tick_counter == 0,
            result.outer_counter == 0,
            result.waveform@ == Seq::<u16>::empty(),
    {
        proof {
            assert(valid_capacity_index16(WAVEFORM_MAX)) by {
                assert(512usize & 511usize == 0) by (bit_vector);
            }
        }
        MeasureState {
            rised_count: -1,
            elapsed_count: 0,
            measured_count: 0,
            pre_polarity: false,
            cycle_val_sum: 0,
            tick_counter: 0,
            outer_counter: 0,
            waveform: RingBufferIndex16bit::new(WAVEFORM_MAX),
        }
    }

    /// Processes one analog sample against the given baseline threshold:
    /// advances the cycle detector exactly as [`cycle_step`] says, captures
    /// the sample into the waveform buffer when the capture window, the
    /// epoch's first cycle and free space all line up, and reports through
    /// the outcome which float accumulators the caller must fold or drop.
    ///
    /// The preconditions are the machine limits of the counters; the
    /// measurement design keeps all of them far from their bounds (every
    /// counter and the running sum reset at each epoch's starting edge).
    pub fn on_sample(&mut self, sample: u16, threshold: u16) -> (out: SampleOutcome)
        requires
            old(self).wf(),
            threshold + RISING_EDGE_MARGIN <= u16::MAX,
            old(self).elapsed_count < u16::MAX,
            old(self).rised_count < i8::MAX,
            old(self).cycle_val_sum + sample <= u32::MAX,
        ensures
            final(self).wf(),
            final(self).cycle_model() == cycle_step(old(self).cycle_model(), sample, threshold),
            (final(self).cycle_model(), final(self).waveform@) == capture_step(
                old(self).cycle_model(),
                old(self).waveform@,
                old(self).outer_counter,
                sample,
                threshold,
            ),
            final(self).tick_counter == old(self).tick_counter,
            final(self).outer_counter == old(self).outer_counter,
            out.rising == rising_edge(sample, threshold, old(self).pre_polarity),
            out.started == (out.rising && old(self).rised_count == -1),
            out.fold_cycle == (out.rising && old(self).rised_count != -1),
            out.fold_cycle ==> {
                &&& out.epoch_val_sum == old(self).cycle_val_sum + sample
                &&& out.epoch_val_sum == final(self).cycle_val_sum
                &&& out.epoch_sample_count == final(self).measured_count
            },
            !out.fold_cycle ==> out.epoch_val_sum == 0 && out.epoch_sample_count == 0,
            out.captured == (old(self).outer_counter == CAPTURE_WINDOW_INDEX
                && final(self).rised_count == 0 && old(self).waveform@.len() < WAVEFORM_MAX - 1),
            out.captured ==> final(self).waveform@ == old(self).waveform@.push(sample),
            !out.captured ==> final(self).waveform@ == old(self).waveform@,
    {
        let rising = !self.pre_polarity && sample > threshold && sample < threshold
            + RISING_EDGE_MARGIN;
        self.pre_polarity = sample > threshold;

        let started = rising && self.rised_count == -1;
        let fold_cycle = rising && self.rised_count != -1;
        if rising {
            if self.rised_count == -1 {
                self.rised_count = 0;
                self.elapsed_count = 0;
                self.measured_count = 0;
            } else {
                self.rised_count = self.rised_count + 1;
                self.measured_count = self.elapsed_count;
            }
        }
        self.elapsed_count = self.elapsed_count + 1;

        let mut captured = false;
        if self.outer_counter == CAPTURE_WINDOW_INDEX && self.rised_count == 0 {
            proof {
                self.waveform.lemma_view_len();
            }
            if !self.waveform.is_full() {
                self.waveform.enqueue(sample);
                captured = true;
            }
        }

        let summed: u32 = self.cycle_val_sum + sample as u32;
        let mut epoch_val_sum: u32 = 0;
        let mut epoch_sample_count: u16 = 0;
        if started {
            self.cycle_val_sum = 0;
        } else {
            self.cycle_val_sum = summed;
            if fold_cycle {
                epoch_val_sum = summed;
                epoch_sample_count = self.measured_count;
            }
        }

        SampleOutcome { rising, started, fold_cycle, epoch_val_sum, epoch_sample_count, captured }
    }

    /// Advances the epoch scheduler by one timer tick: the tick counter
    /// runs 0 up to the tick rate and resets on reaching it, so an epoch is
    /// exactly one second of timer fires. Returns whether an epoch just
    /// ended, in which case the outer window counter has advanced (wrapping
    /// past its cap) and the caller runs the per-second report.
    pub fn on_tick(&mut self) -> (second_elapsed: bool)
        requires
            old(self).wf(),
        ensures
            final(self).wf(),
            final(self).cycle_model() == old(self).cycle_model(),
            final(self).waveform@ == old(self).waveform@,
            second_elapsed == (old(self).tick_counter == TICKS_PER_SECOND - 1),
            !second_elapsed ==> {
                &&& final(self).tick_counter == old(self).tick_counter + 1
                &&& final(self).outer_counter == old(self).outer_counter
            },
            second_elapsed ==> {
                &&& final(self).tick_counter == 0
                &&& final(self).outer_counter as int == (if old(self).outer_counter
                    < OUTER_WINDOW_MAX {
                    old(self).outer_counter + 1
                } else {
                    0int
                })
            },
    {
        if self.tick_counter < TICKS_PER_SECOND - 1 {
            self.tick_counter = self.tick_counter + 1;
            return false;
        }
        self.tick_counter = 0;
        if self.outer_counter < OUTER_WINDOW_MAX {
            self.outer_counter = self.outer_counter + 1;
        } else {
            self.outer_counter = 0;
        }
        true
    }

    /// Ends the per-second report: puts the detector back to idle so the
    /// next rising edge restarts measurement for the following epoch.
    /// Nothing else changes.
    pub fn reset_measurement(&mut self)
        requires
            old(self).wf(),
        ensures
            final(self).wf(),
            *final(self) == (MeasureState { rised_count: -1i8, ..*old(self) }),
    {
        self.rised_count = -1;
    }

    /// What the per-second report reads, under masked interrupts: the cycle
    /// count and the sample count captured at the last edge, the two integer
    /// inputs of the frequency and RMS quotients.
    pub fn report_snapshot(&self) -> (r: (i8, u16))
        ensures
            r.0 == self.rised_count,
            r.1 == self.measured_count,
    {
        (self.rised_count, self.measured_count)
    }

    /// Main-loop synchronization: the outer window has advanced far enough
    /// that the capture window is closed and its data is stable, so the
    /// waveform stream may be drained.
    pub fn csv2_window_reached(&self) -> (r: bool)
        ensures
            r == (self.outer_counter >= CSV2_BEGIN),
    {
        self.outer_counter >= CSV2_BEGIN
    }

    /// Main-loop synchronization: the outer window has wrapped back to its
    /// start, so the next capture window lies ahead.
    pub fn outer_window_wrapped(&self) -> (r: bool)
        ensures
            r == (self.outer_counter == 0),
    {
        self.outer_counter == 0
    }

    /// True while nothing waits in the waveform-capture buffer.
    pub fn waveform_is_empty(&self) -> (r: bool)
        requires
            self.wf(),
        ensures
            r == (self.waveform@.len() == 0),
    {
        self.waveform.is_empty()
    }

    /// Number of captured samples still queued.
    pub fn waveform_len(&self) -> (r: u16)
        requires
            self.wf(),
        ensures
            r as int == self.waveform@.len(),
    {
        self.waveform.len()
    }

    /// Takes the oldest captured sample out of the waveform buffer; the
    /// cycle detector and the scheduler are untouched.
    pub fn waveform_dequeue(&mut self) -> (sample: u16)
        requires
            old(self).wf(),
            old(self).waveform@.len() > 0,
        ensures
            final(self).wf(),
            sample == old(self).waveform@[0],
            final(self).waveform@ == old(self).waveform@.subrange(
                1,
                old(self).waveform@.len() as int,
            ),
            final(self).cycle_model() == old(self).cycle_model(),
            final(self).tick_counter == old(self).tick_counter,
            final(self).outer_counter == old(self).outer_counter,
    {
        self.waveform.dequeue()
    }
}

/// A synthetic sample stream of length `len`: the value `hi` at every
/// multiple of the period `p`, the value `lo` everywhere else.
pub open spec fn periodic_stream(len: nat, p: int, hi: u16, lo: u16) -> Seq<u16> {
    Seq::new(
        len,
        |i: int|
            if i % p == 0 {
                hi
            } else {
                lo
            },
    )
}

/// Runs compose: a run over `s1 + s2` is the run over `s1` continued by the
/// run over `s2`.
proof fn lemma_cycle_run_append(m: CycleModel, s1: Seq<u16>, s2: Seq<u16>, threshold: u16)
    ensures
        cycle_run(m, s1 + s2, threshold) == cycle_run(cycle_run(m, s1, threshold), s2, threshold),
    decreases s1.len(),
{
    if s1.len() == 0 {
        assert(s1 + s2 =~= s2);
    } else {
        assert((s1 + s2).drop_first() =~= s1.drop_first() + s2);
        lemma_cycle_run_append(cycle_step(m, s1[0], threshold), s1.drop_first(), s2, threshold);
    }
}

/// A stretch of samples at or below the threshold raises no edge: it only
/// advances `elapsed`, accumulates into the cycle sum, and leaves the
/// polarity low.
proof fn lemma_low_run(m: CycleModel, count: nat, threshold: u16, lo: u16)
    requires
        lo <= threshold,
    ensures
        cycle_run(m, Seq::new(count, |i: int| lo), threshold) == (CycleModel {
            rised: m.rised,
            elapsed: m.elapsed + count,
            measured: m.measured,
            pre: if count == 0 {
                m.pre
            } else {
                false
            },
            val_sum: m.val_sum + count * lo,
        }),
    decreases count,
{
    let s = Seq::new(count, |i: int| lo);
    if count == 0 {
        assert(m.val_sum + count * lo == m.val_sum);
    } else {
        let m1 = cycle_step(m, lo, threshold);
        assert(s.drop_first() =~= Seq::new((count - 1) as nat, |i: int| lo));
        lemma_low_run(m1, (count - 1) as nat, threshold, lo);
        assert(m.val_sum + lo + (count - 1) * lo == m.val_sum + count * lo) by (nonlinear_arith);
    }
}

/// The periodic stream through its `j`-th edge splits off a final block of
/// `p - 1` low samples followed by the edge sample itself.
proof fn lemma_periodic_block(p: int, j: int, hi: u16, lo: u16)
    requires
        2 <= p,
        1 <= j,
    ensures
        periodic_stream((j * p + 1) as nat, p, hi, lo) == periodic_stream(
            ((j - 1) * p + 1) as nat,
            p,
            hi,
            lo,
        ) + (Seq::new((p - 1) as nat, |i: int| lo) + seq![hi]),
{
    let n1: nat = ((j - 1) * p + 1) as nat;
    let full = periodic_stream((j * p + 1) as nat, p, hi, lo);
    let prefix = periodic_stream(n1, p, hi, lo);
    let block = Seq::new((p - 1) as nat, |i: int| lo) + seq![hi];
    assert(j * p + 1 == n1 + p) by (nonlinear_arith)
        requires
            n1 == (j - 1) * p + 1,
            2 <= p,
            1 <= j,
    ;
    assert(full =~= prefix + block) by {
        assert forall|i: int| 0 <= i < full.len() implies full[i] == (prefix + block)[i] by {
            if n1 <= i {
                let q: int = i - n1;
                if q < p - 1 {
                    assert(i == p * (j - 1) + (1 + q)) by (nonlinear_arith)
                        requires
                            i == n1 + q,
                            n1 == (j - 1) * p + 1,
                    ;
                    lemma_mod_multiples_vanish(j - 1, 1 + q, p);
                    lemma_small_mod((1 + q) as nat, p as nat);
                    assert(i % p != 0);
                } else {
                    assert(i == p * j + 0) by (nonlinear_arith)
                        requires
                            i == n1 + p - 1,
                            n1 == (j - 1) * p + 1,
                    ;
                    lemma_mod_multiples_vanish(j, 0, p);
                    lemma_small_mod(0, p as nat);
                    assert(i % p == 0);
                }
            }
        }
    }
}

/// State after the prefix of the periodic stream that ends just past its
/// `j`-th edge (`j * p + 1` samples): `j` completed cycles, `j * p + 1`
/// samples elapsed, the cumulative `j * p` samples captured at the last
/// edge, and the running sum holding every sample since the start (the
/// starting edge sample itself excluded: the idle-start reset drops it).
proof fn lemma_periodic_prefix(m0: CycleModel, threshold: u16, p: int, j: int, hi: u16, lo: u16)
    requires
        m0.rised == -1,
        !m0.pre,
        2 <= p,
        0 <= j,
        threshold < hi,
        (hi as int) < threshold + RISING_EDGE_MARGIN,
        lo <= threshold,
    ensures
        cycle_run(m0, periodic_stream((j * p + 1) as nat, p, hi, lo), threshold) == (CycleModel {
            rised: j,
            elapsed: j * p + 1,
            measured: j * p,
            pre: true,
            val_sum: j * ((p - 1) * lo + hi),
        }),
    decreases j,
{
    if j == 0 {
        let s = periodic_stream(1, p, hi, lo);
        lemma_small_mod(0, p as nat);
        assert(s =~= seq![hi]);
        assert(s.drop_first() =~= Seq::<u16>::empty());
        assert(cycle_run(m0, s, threshold) == cycle_step(m0, hi, threshold)) by {
            reveal_with_fuel(cycle_run, 2);
        }
        assert(j * p == 0 && j * ((p - 1) * lo + hi) == 0) by (nonlinear_arith)
            requires
                j == 0,
        ;
    } else {
        let n1: nat = ((j - 1) * p + 1) as nat;
        let full = periodic_stream((j * p + 1) as nat, p, hi, lo);
        let prefix = periodic_stream(n1, p, hi, lo);
        let lows = Seq::new((p - 1) as nat, |i: int| lo);
        let block = lows + seq![hi];
        lemma_periodic_block(p, j, hi, lo);
        lemma_periodic_prefix(m0, threshold, p, j - 1, hi, lo);
        let a = cycle_run(m0, prefix, threshold);
        lemma_cycle_run_append(m0, prefix, block, threshold);
        lemma_low_run(a, (p - 1) as nat, threshold, lo);
        let b = cycle_run(a, lows, threshold);
        lemma_cycle_run_append(a, lows, seq![hi], threshold);
        assert(seq![hi].drop_first() =~= Seq::<u16>::empty());
        assert(cycle_run(b, seq![hi], threshold) == cycle_step(b, hi, threshold)) by {
            reveal_with_fuel(cycle_run, 2);
        }
        assert(b.elapsed == j * p) by (nonlinear_arith)
            requires
                b.elapsed == (j - 1) * p + 1 + (p - 1),
                2 <= p,
        ;
        assert(b.measured == (j - 1) * p);
        assert(!b.pre && b.rised == j - 1 && 0 <= j - 1);
        assert(b.val_sum + hi == j * ((p - 1) * lo + hi)) by (nonlinear_arith)
            requires
                b.val_sum == (j - 1) * ((p - 1) * lo + hi) + (p - 1) * lo,
                1 <= j,
        ;
        assert(cycle_step(b, hi, threshold) == (CycleModel {
            rised: j,
            elapsed: j * p + 1,
            measured: j * p,
            pre: true,
            val_sum: j * ((p - 1) * lo + hi),
        }));
        assert(cycle_run(m0, full, threshold) == cycle_step(b, hi, threshold));
    }
}

/// Cycle-counting law: feed the detector, from idle, a stream with a rising
/// edge every `p` samples (`hi` is above the threshold and within the noise
/// margin, `lo` at or below it), through the starting edge and `k` more
/// edges. Then exactly `k` cycles are counted, `k * p + 1` samples have
/// elapsed since the start, and the count captured at the last edge is the
/// cumulative `k * p` — so the reported frequency, `rised * sample_rate /
/// measured`, is `sample_rate / p`, the stream's true frequency. For a
/// single completed cycle the captured count is the period `p` itself. The
/// running sum likewise holds every sample since the start (the `k` blocks
/// of one edge sample and `p - 1` low samples each), so its quotient with
/// the captured count is the stream's true average.
pub proof fn lemma_periodic_stream_counts(
    m0: CycleModel,
    threshold: u16,
    p: int,
    k: int,
    hi: u16,
    lo: u16,
)
    requires
        m0.rised == -1,
        !m0.pre,
        2 <= p,
        1 <= k,
        threshold < hi,
        (hi as int) < threshold + RISING_EDGE_MARGIN,
        lo <= threshold,
    ensures
        cycle_run(m0, periodic_stream((k * p + 1) as nat, p, hi, lo), threshold) == (CycleModel {
            rised: k,
            elapsed: k * p + 1,
            measured: k * p,
            pre: true,
            val_sum: k * ((p - 1) * lo + hi),
        }),
        k == 1 ==> cycle_run(m0, periodic_stream((k * p + 1) as nat, p, hi, lo), threshold).measured
            == p,
{
    lemma_periodic_prefix(m0, threshold, p, k, hi, lo);
}

/// One sample's effect on the cycle counters and the waveform-capture
/// buffer together, exactly as `on_sample`'s contract states it, for a
/// fixed outer-counter value: the sample is kept when the capture window,
/// the epoch's first cycle and free buffer space all line up.
pub open spec fn capture_step(
    m: CycleModel,
    w: Seq<u16>,
    outer: u8,
    sample: u16,
    threshold: u16,
) -> (CycleModel, Seq<u16>) {
    let m1 = cycle_step(m, sample, threshold);
    if outer == CAPTURE_WINDOW_INDEX && m1.rised == 0 && w.len() < WAVEFORM_MAX - 1 {
        (m1, w.push(sample))
    } else {
        (m1, w)
    }
}

/// Cycle counters and capture buffer after a whole stream of samples.
pub open spec fn capture_run(
    m: CycleModel,
    w: Seq<u16>,
    outer: u8,
    samples: Seq<u16>,
    threshold: u16,
) -> (CycleModel, Seq<u16>)
    decreases samples.len(),
{
    if samples.len() == 0 {
        (m, w)
    } else {
        let next = capture_step(m, w, outer, samples[0], threshold);
        capture_run(next.0, next.1, outer, samples.drop_first(), threshold)
    }
}

/// The cycle half of a capture run is the plain cycle run.
proof fn lemma_capture_run_cycle(
    m: CycleModel,
    w: Seq<u16>,
    outer: u8,
    samples: Seq<u16>,
    threshold: u16,
)
    ensures
        capture_run(m, w, outer, samples, threshold).0 == cycle_run(m, samples, threshold),
    decreases samples.len(),
{
    if samples.len() > 0 {
        let next = capture_step(m, w, outer, samples[0], threshold);
        lemma_capture_run_cycle(next.0, next.1, outer, samples.drop_first(), threshold);
    }
}

/// Capture runs compose across concatenation.
proof fn lemma_capture_run_append(
    m: CycleModel,
    w: Seq<u16>,
    outer: u8,
    s1: Seq<u16>,
    s2: Seq<u16>,
    threshold: u16,
)
    ensures
        capture_run(m, w, outer, s1 + s2, threshold) == capture_run(
            capture_run(m, w, outer, s1, threshold).0,
            capture_run(m, w, outer, s1, threshold).1,
            outer,
            s2,
            threshold,
        ),
    decreases s1.len(),
{
    if s1.len() == 0 {
        assert(s1 + s2 =~= s2);
    } else {
        assert((s1 + s2).drop_first() =~= s1.drop_first() + s2);
        let next = capture_step(m, w, outer, s1[0], threshold);
        lemma_capture_run_append(next.0, next.1, outer, s1.drop_first(), s2, threshold);
    }
}

/// A low stretch during the capture window: while the detector sits in the
/// epoch's first cycle and the buffer has room for the whole stretch, every
/// sample is captured; in any other state none is.
proof fn lemma_capture_low_run(m: CycleModel, w: Seq<u16>, outer: u8, count: nat, threshold: u16, lo: u16)
    requires
        lo <= threshold,
        (outer == CAPTURE_WINDOW_INDEX && m.rised == 0) ==> w.len() + count <= WAVEFORM_MAX - 1,
    ensures
        capture_run(m, w, outer, Seq::new(count, |i: int| lo), threshold).0 == cycle_run(
            m,
            Seq::new(count, |i: int| lo),
            threshold,
        ),
        capture_run(m, w, outer, Seq::new(count, |i: int| lo), threshold).1 == (if outer
            == CAPTURE_WINDOW_INDEX && m.rised == 0 {
            w + Seq::new(count, |i: int| lo)
        } else {
            w
        }),
    decreases count,
{
    let s = Seq::new(count, |i: int| lo);
    lemma_capture_run_cycle(m, w, outer, s, threshold);
    if count == 0 {
        assert(w + s =~= w);
    } else {
        let next = capture_step(m, w, outer, lo, threshold);
        assert(next.0.rised == m.rised);
        assert(s.drop_first() =~= Seq::new((count - 1) as nat, |i: int| lo));
        lemma_capture_low_run(next.0, next.1, outer, (count - 1) as nat, threshold, lo);
        if outer == CAPTURE_WINDOW_INDEX && m.rised == 0 {
            assert(next.1 == w.push(lo));
            assert(w.push(lo) + Seq::new((count - 1) as nat, |i: int| lo) =~= w + s);
        }
    }
}

/// Waveform-capture law: during the capture window, a periodic stream from
/// idle leaves exactly its first full cycle in the capture buffer — the
/// starting edge sample and the `p - 1` samples behind it — and nothing
/// more, however many further cycles (`k` of them) run by: every later
/// sample finds the cycle count past zero. So one outer window yields one
/// burst of exactly `p` waveform records, `p` being the measured length of
/// the captured cycle.
pub proof fn lemma_capture_window_first_cycle(
    m0: CycleModel,
    threshold: u16,
    p: int,
    k: int,
    hi: u16,
    lo: u16,
)
    requires
        m0.rised == -1,
        !m0.pre,
        2 <= p,
        p <= WAVEFORM_MAX - 1,
        1 <= k,
        threshold < hi,
        (hi as int) < threshold + RISING_EDGE_MARGIN,
        lo <= threshold,
    ensures
        capture_run(
            m0,
            Seq::<u16>::empty(),
            CAPTURE_WINDOW_INDEX,
            periodic_stream((k * p + 1) as nat, p, hi, lo),
            threshold,
        ).1 == seq![hi] + Seq::new((p - 1) as nat, |i: int| lo),
        capture_run(
            m0,
            Seq::<u16>::empty(),
            CAPTURE_WINDOW_INDEX,
            periodic_stream((k * p + 1) as nat, p, hi, lo),
            threshold,
        ).1.len() == p,
{
    lemma_capture_prefix(m0, threshold, p, k, hi, lo);
}

/// One burst per epoch, for any stream whatever its shape: once a cycle is
/// complete, the cycle count never returns to zero within the epoch (only
/// the per-second reset to idle, which ends the epoch, can rearm capture),
/// so no further sample enters the capture buffer. Together with
/// `on_sample`'s pointwise condition — a sample is kept only when the outer
/// counter sits in the capture window, the cycle count stands at zero and a
/// slot is free — an epoch's captured samples are exactly those of its
/// first detected cycle, in arrival order.
pub proof fn lemma_no_capture_after_first_cycle(
    m: CycleModel,
    w: Seq<u16>,
    outer: u8,
    samples: Seq<u16>,
    threshold: u16,
)
    requires
        m.rised >= 1,
    ensures
        cycle_run(m, samples, threshold).rised >= 1,
        capture_run(m, w, outer, samples, threshold).1 == w,
    decreases samples.len(),
{
    if samples.len() > 0 {
        let next = capture_step(m, w, outer, samples[0], threshold);
        assert(next.0.rised >= 1 && next.1 == w);
        lemma_no_capture_after_first_cycle(next.0, next.1, outer, samples.drop_first(), threshold);
    }
}

/// Induction behind the capture law: after the prefix through the `j`-th
/// edge the capture buffer holds the starting edge sample alone (`j == 0`)
/// or the whole first cycle (`j >= 1`), and the counters stand as the
/// cycle-counting law says.
proof fn lemma_capture_prefix(m0: CycleModel, threshold: u16, p: int, j: int, hi: u16, lo: u16)
    requires
        m0.rised == -1,
        !m0.pre,
        2 <= p,
        p <= WAVEFORM_MAX - 1,
        0 <= j,
        threshold < hi,
        (hi as int) < threshold + RISING_EDGE_MARGIN,
        lo <= threshold,
    ensures
        capture_run(
            m0,
            Seq::<u16>::empty(),
            CAPTURE_WINDOW_INDEX,
            periodic_stream((j * p + 1) as nat, p, hi, lo),
            threshold,
        ).0 == cycle_run(m0, periodic_stream((j * p + 1) as nat, p, hi, lo), threshold),
        capture_run(
            m0,
            Seq::<u16>::empty(),
            CAPTURE_WINDOW_INDEX,
            periodic_stream((j * p + 1) as nat, p, hi, lo),
            threshold,
        ).1 == (if j == 0 {
            seq![hi]
        } else {
            seq![hi] + Seq::new((p - 1) as nat, |i: int| lo)
        }),
    decreases j,
{
    let outer = CAPTURE_WINDOW_INDEX;
    let w0 = Seq::<u16>::empty();
    let full = periodic_stream((j * p + 1) as nat, p, hi, lo);
    lemma_capture_run_cycle(m0, w0, outer, full, threshold);
    if j == 0 {
        assert(j * p == 0) by (nonlinear_arith)
            requires
                j == 0,
        ;
        lemma_small_mod(0, p as nat);
        assert(full =~= seq![hi]);
        let first = capture_step(m0, w0, outer, hi, threshold);
        assert(first.0.rised == 0 && first.1 == w0.push(hi));
        assert(capture_run(m0, w0, outer, full, threshold).1 == first.1) by {
            reveal_with_fuel(capture_run, 2);
            assert(full.drop_first() =~= Seq::<u16>::empty());
        }
        assert(w0.push(hi) =~= seq![hi]);
    } else {
        let prefix = periodic_stream(((j - 1) * p + 1) as nat, p, hi, lo);
        let lows = Seq::new((p - 1) as nat, |i: int| lo);
        let block = lows + seq![hi];
        lemma_periodic_block(p, j, hi, lo);
        lemma_capture_prefix(m0, threshold, p, j - 1, hi, lo);
        lemma_periodic_prefix(m0, threshold, p, j - 1, hi, lo);
        let mid = capture_run(m0, w0, outer, prefix, threshold);
        lemma_capture_run_cycle(m0, w0, outer, prefix, threshold);
        lemma_capture_run_append(m0, w0, outer, prefix, block, threshold);
        // The low stretch: captured in whole only right after the starting
        // edge (`j == 1`, one sample in the buffer so far), untouched once a
        // cycle is complete.
        assert((outer == CAPTURE_WINDOW_INDEX && mid.0.rised == 0) ==> mid.1.len() + (p - 1)
            <= WAVEFORM_MAX - 1);
        lemma_capture_low_run(mid.0, mid.1, outer, (p - 1) as nat, threshold, lo);
        let after_lows = capture_run(mid.0, mid.1, outer, lows, threshold);
        lemma_capture_run_append(mid.0, mid.1, outer, lows, seq![hi], threshold);
        lemma_low_run(mid.0, (p - 1) as nat, threshold, lo);
        // The closing edge: the cycle count moves past zero, so the edge
        // sample itself is captured only when it is the starting edge.
        let last = capture_step(after_lows.0, after_lows.1, outer, hi, threshold);
        assert(after_lows.0.rised == j - 1 && !after_lows.0.pre);
        assert(last.0.rised == j && last.1 == after_lows.1);
        assert(capture_run(after_lows.0, after_lows.1, outer, seq![hi], threshold).1 == last.1)
            by {
            reveal_with_fuel(capture_run, 2);
            assert(seq![hi].drop_first() =~= Seq::<u16>::empty());
        }
        if j == 1 {
            assert(mid.1 == seq![hi]);
            assert(seq![hi] + lows =~= seq![hi] + Seq::new((p - 1) as nat, |i: int| lo));
        }
    }
}

} // verus!
