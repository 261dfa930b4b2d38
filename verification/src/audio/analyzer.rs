//! The analysis side of the pipeline: the rolling window of samples, the
//! loudness of a window, the levels of the frequency bands of its spectrum,
//! and how the levels shown follow them.
//!
//! The transform itself comes from outside, as do the cosines of the Hann
//! window: an update hands out the window to transform, and the magnitudes
//! of the transform are handed back.
use vstd::prelude::*;
use vstd::arithmetic::power2::{lemma2_to64, pow2};
use crate::channel::{SampleChannel, SampleConsumer, SampleProducer};
use crate::arith::{
    divide,
    is_level,
    lesser,
    lesser_of,
    minus,
    multiply,
    negated,
    plus,
    product,
    quotient,
    root,
    square_root,
    sum,
};
use crate::sample::{
    denotes, is_in_unit_range, lemma_denotes_unique, pcm_sample, SILENCE, UNITY,
};

verus! {

/// Samples in one transform window. A power of two.
pub const FFT_SIZE: usize = 2048;

/// Number of frequency bands.
pub const NUM_BANDS: usize = 16;

/// Capacity of the analysis channel: four transform windows.
pub const ANALYSIS_BUFFER_SIZE: usize = 8192;

/// The most samples that one update takes from the channel.
pub const MAX_SAMPLES_PER_UPDATE: usize = 8192;

/// Samples of a window that are kept for the next one: a quarter.
pub const OVERLAP: usize = 512;

/// Bins of the transform that carry a positive frequency: half of them.
pub const USEFUL_BINS: usize = 1024;

/// The pattern of `0.5`: the weight of each channel in the mix.
pub const HALF: u32 = 0x3F00_0000;

/// The pattern of `0.7`: the weight of the level shown so far when a new
/// level arrives.
pub const SMOOTHING: u32 = 0x3F33_3333;

/// The pattern of `0.95`: what the levels are multiplied by when no sample
/// has arrived.
pub const DECAY: u32 = 0x3F73_3333;

/// The pattern of `3.0`: what the loudness is multiplied by when it is
/// read.
pub const LOUDNESS_GAIN: u32 = 0x4040_0000;

/// The pattern of `40.0`: what the level of a band is multiplied by.
pub const BAND_GAIN: u32 = 0x4220_0000;

/// The pattern of `2048.0`: the length of the window as a number.
pub const WINDOW_LENGTH: u32 = 0x4500_0000;

/// The window samples that a stream of interleaved stereo samples makes:
/// one for each pair, the mean of the pair's left and right sample. A left
/// sample at the end of the stream has no partner yet and makes none.
pub open spec fn mixed(stream: Seq<u32>) -> Seq<u32> {
    Seq::new(
        (stream.len() / 2) as nat,
        |k: int| product(sum(stream[2 * k], stream[2 * k + 1]), HALF),
    )
}

/// The left sample at the end of a stream that waits for its partner.
pub open spec fn unpaired(stream: Seq<u32>) -> Option<u32> {
    if stream.len() % 2 == 1 {
        Some(stream.last())
    } else {
        None
    }
}

/// The stream that is taken up when `drained` arrives while `waiting`
/// waits for its partner: the waiting sample first.
pub open spec fn resumed(waiting: Option<u32>, drained: Seq<u32>) -> Seq<u32> {
    match waiting {
        Some(left) => seq![left] + drained,
        None => drained,
    }
}

/// The sample that waits for its partner after `drained` has arrived.
pub open spec fn waiting_after(waiting: Option<u32>, drained: Seq<u32>) -> Option<u32> {
    unpaired(resumed(waiting, drained))
}

/// Where a stream is cut, at a pair's border or inside a pair, does not
/// matter: what the first part makes, followed by what the second part
/// makes once it is taken up with the sample that the first left waiting,
/// is what the whole stream makes, and the same sample waits at the end. A
/// left sample is never mixed with the right sample of another pair.
pub proof fn lemma_pairs_span_drains(first: Seq<u32>, second: Seq<u32>)
    ensures
        mixed(first + second) == mixed(first) + mixed(resumed(unpaired(first), second)),
        unpaired(first + second) == waiting_after(unpaired(first), second),
{
    let whole = first + second;
    let rest = resumed(unpaired(first), second);
    let pairs = first.len() / 2;
    assert forall|k: int| 0 <= k < mixed(whole).len() implies mixed(whole)[k] == (mixed(first)
        + mixed(rest))[k] by {
        if k >= pairs {
            let j = k - pairs;
            assert(rest[2 * j] == whole[2 * k]);
            assert(rest[2 * j + 1] == whole[2 * k + 1]);
        }
    }
    assert(mixed(whole) =~= mixed(first) + mixed(rest));
    if whole.len() % 2 == 1 {
        assert(rest.last() == whole.last());
    }
}

/// The same of a stream that is taken up with a waiting sample: two drains
/// make what one drain of both makes.
pub proof fn lemma_drains_join(waiting: Option<u32>, first: Seq<u32>, second: Seq<u32>)
    ensures
        mixed(resumed(waiting, first + second)) == mixed(resumed(waiting, first)) + mixed(
            resumed(waiting_after(waiting, first), second),
        ),
        waiting_after(waiting, first + second) == waiting_after(
            waiting_after(waiting, first),
            second,
        ),
{
    assert(resumed(waiting, first + second) =~= resumed(waiting, first) + second);
    lemma_pairs_span_drains(resumed(waiting, first), second);
}

/// What an update found.
pub enum AnalysisStep {
    /// No sample arrived: the levels have decayed.
    Decay,
    /// Samples arrived, too few for a transform: the levels are as they
    /// were.
    Idle,
    /// A window is full and the loudness has taken it in: transform these
    /// [`FFT_SIZE`] samples and hand the magnitudes of the spectrum to
    /// [`AudioAnalyzer::process_fft`].
    Transform(Vec<u32>),
}

/// `drained` is what a drain of at most `limit` samples may take from a
/// consumer that has `buffered` samples before and `left` after.
///
/// It takes the buffered samples first and in order. It stops at the limit,
/// or earlier where the channel has run dry; what it takes beyond the
/// buffered samples has arrived meanwhile.
pub open spec fn is_drain_of(buffered: Seq<u32>, drained: Seq<u32>, left: Seq<u32>, limit: nat) -> bool {
    &&& drained.len() <= limit
    &&& forall|i: int| 0 <= i < drained.len() && i < buffered.len() ==> drained[i] == buffered[i]
    &&& drained.len() < limit ==> drained.len() >= buffered.len() && left.len() == 0
    &&& drained.len() <= buffered.len() ==> left == buffered.skip(drained.len() as int)
}

/// Takes samples from the channel until it is empty or `limit` samples have
/// been taken, never waiting.
pub fn drain(consumer: &mut SampleConsumer, limit: usize) -> (drained: Vec<u32>)
    ensures
        is_drain_of(old(consumer)@, drained@, final(consumer)@, limit as nat),
{
    let ghost buffered = consumer@;
    let mut drained: Vec<u32> = Vec::new();
    assert(buffered.skip(0) =~= buffered);
    while drained.len() < limit
        invariant_except_break
            drained@.len() <= limit,
            drained@.len() <= buffered.len() ==> consumer@ == buffered.skip(drained@.len() as int),
            forall|i: int| 0 <= i < drained@.len() && i < buffered.len() ==> drained@[i] == buffered[i],
        ensures
            is_drain_of(buffered, drained@, consumer@, limit as nat),
        decreases limit - drained@.len(),
    {
        let ghost taken: int = drained@.len() as int;
        match consumer.try_read_one() {
            Some(sample) => {
                drained.push(sample);
                proof {
                    if taken < buffered.len() {
                        assert(buffered.skip(taken).skip(1) =~= buffered.skip(taken + 1));
                    }
                }
            },
            None => {
                proof {
                    if taken == buffered.len() {
                        assert(consumer@ =~= buffered.skip(taken));
                    }
                }
                break ;
            },
        }
    }
    drained
}

/// The samples buffered at the reading end of a channel, where there is one.
pub open spec fn buffered_in(consumer: Option<SampleConsumer>) -> Seq<u32> {
    match consumer {
        Some(consumer) => consumer@,
        None => Seq::<u32>::empty(),
    }
}

/// Drains the channel where one is attached, and takes nothing where none
/// is.
fn drain_attached(consumer: &mut Option<SampleConsumer>, limit: usize) -> (drained: Vec<u32>)
    ensures
        (*final(consumer)) is Some == (*old(consumer)) is Some,
        is_drain_of(
            buffered_in(*old(consumer)),
            drained@,
            buffered_in(*final(consumer)),
            if (*old(consumer)) is Some {
                limit as nat
            } else {
                0
            },
        ),
{
    match consumer {
        Some(attached) => {
            let drained = drain(attached, limit);
            drained
        },
        None => {
            assert(Seq::<u32>::empty().skip(0) =~= Seq::<u32>::empty());
            Vec::new()
        },
    }
}

/// The window after `drained` samples have arrived at a window of
/// `window` samples while `waiting` waited for its partner.
///
/// Without samples nothing changes. Else the pairs of the stream join the
/// window, mixed down. Once the window holds [`FFT_SIZE`] samples, only its
/// last [`OVERLAP`] samples stay.
pub open spec fn window_after(window: Seq<u32>, waiting: Option<u32>, drained: Seq<u32>) -> Seq<
    u32,
> {
    let joined = window + mixed(resumed(waiting, drained));
    if drained.len() > 0 && joined.len() >= FFT_SIZE {
        joined.skip(joined.len() - OVERLAP)
    } else {
        joined
    }
}

/// The samples to transform after `drained` samples have arrived: the first
/// [`FFT_SIZE`] samples of the window, once it holds as many.
pub open spec fn transform_input(
    window: Seq<u32>,
    waiting: Option<u32>,
    drained: Seq<u32>,
) -> Option<Seq<u32>> {
    let joined = window + mixed(resumed(waiting, drained));
    if drained.len() > 0 && joined.len() >= FFT_SIZE {
        Some(joined.take(FFT_SIZE as int))
    } else {
        None
    }
}

/// Whether `step` is the step after `drained` samples have arrived.
pub open spec fn is_step_after(
    step: AnalysisStep,
    window: Seq<u32>,
    waiting: Option<u32>,
    drained: Seq<u32>,
) -> bool {
    match step {
        AnalysisStep::Decay => drained.len() == 0,
        AnalysisStep::Idle => drained.len() > 0 && transform_input(window, waiting, drained)
            is None,
        AnalysisStep::Transform(input) => transform_input(window, waiting, drained) == Some(
            input@,
        ),
    }
}

/// While the window stays below [`FFT_SIZE`] samples, it is the same
/// whether a stream arrives in one drain or in two, wherever it is cut: the
/// window grows by one mean for each stereo pair of the stream, in the order
/// of the stream.
pub proof fn lemma_window_over_stream(
    window: Seq<u32>,
    waiting: Option<u32>,
    first: Seq<u32>,
    second: Seq<u32>,
)
    requires
        window.len() + mixed(resumed(waiting, first + second)).len() < FFT_SIZE,
    ensures
        window_after(
            window_after(window, waiting, first),
            waiting_after(waiting, first),
            second,
        ) == window + mixed(resumed(waiting, first + second)),
        window_after(window, waiting, first + second) == window + mixed(
            resumed(waiting, first + second),
        ),
        waiting_after(waiting_after(waiting, first), second) == waiting_after(
            waiting,
            first + second,
        ),
{
    lemma_drains_join(waiting, first, second);
    let one = mixed(resumed(waiting, first));
    let two = mixed(resumed(waiting_after(waiting, first), second));
    assert(mixed(resumed(waiting, first + second)).len() == one.len() + two.len());
    assert((window + one) + two =~= window + (one + two));
}

/// The rolling window of mixed-down samples, and the left sample that
/// waits for its partner where the stream was cut inside a pair.
pub struct AnalysisWindow {
    samples: Vec<u32>,
    waiting: Option<u32>,
}

/// The mean of each pair of a stream.
fn mix(stream: &[u32]) -> (means: Vec<u32>)
    ensures
        means@ == mixed(stream@),
{
    let pairs = stream.len() / 2;
    let mut means: Vec<u32> = Vec::new();
    let mut k: usize = 0;
    while k < pairs
        invariant
            k <= pairs,
            pairs == stream@.len() / 2,
            2 * pairs <= stream@.len() <= usize::MAX,
            means@ == mixed(stream@).take(k as int),
        decreases pairs - k,
    {
        assert(2 * k + 1 < stream@.len());
        means.push(multiply(plus(stream[2 * k], stream[2 * k + 1]), HALF));
        proof {
            let all = mixed(stream@);
            assert(all.take(k as int).push(all[k as int]) =~= all.take(k + 1));
        }
        k = k + 1;
    }
    assert(mixed(stream@).take(pairs as int) =~= mixed(stream@));
    means
}

impl AnalysisWindow {
    #[verifier::type_invariant]
    spec fn well_formed(self) -> bool {
        self.samples@.len() < FFT_SIZE
    }

    /// The samples of the window, oldest first.
    pub closed spec fn view(&self) -> Seq<u32> {
        self.samples@
    }

    /// The left sample that waits for its partner.
    pub closed spec fn waiting(&self) -> Option<u32> {
        self.waiting
    }

    /// An empty window with no sample waiting.
    pub fn new() -> (window: AnalysisWindow)
        ensures
            window@ == Seq::<u32>::empty(),
            window.waiting() is None,
    {
        AnalysisWindow { samples: Vec::new(), waiting: None }
    }

    /// The number of samples in the window: always fewer than [`FFT_SIZE`].
    pub fn len(&self) -> (n: usize)
        ensures
            n == self@.len(),
            n < FFT_SIZE,
    {
        proof {
            use_type_invariant(self);
        }
        self.samples.len()
    }

    /// Takes the samples `drained` into the window and says what to do
    /// next. A drain that ends inside a pair leaves the pair's left sample
    /// waiting, and the next drain begins with its partner. The levels are
    /// not its business: `Decay` and `Idle` stand for no samples and for
    /// too few.
    pub fn ingest(&mut self, drained: &[u32]) -> (step: AnalysisStep)
        ensures
            final(self)@ == window_after(old(self)@, old(self).waiting(), drained@),
            final(self).waiting() == waiting_after(old(self).waiting(), drained@),
            is_step_after(step, old(self)@, old(self).waiting(), drained@),
    {
        proof {
            use_type_invariant(&*self);
        }
        let ghost before = self.samples@;
        let ghost taken_up = resumed(self.waiting, drained@);
        if drained.len() == 0 {
            assert(before + mixed(taken_up) =~= before);
            return AnalysisStep::Decay;
        }
        let mut stream: Vec<u32> = Vec::new();
        match self.waiting {
            Some(left) => {
                stream.push(left);
            },
            None => {},
        }
        let ghost head = stream@;
        let mut d: usize = 0;
        while d < drained.len()
            invariant
                d <= drained@.len(),
                stream@ == head + drained@.take(d as int),
            decreases drained@.len() - d,
        {
            stream.push(drained[d]);
            assert(drained@.take(d as int).push(drained@[d as int]) =~= drained@.take(d + 1));
            d = d + 1;
        }
        assert(drained@.take(drained@.len() as int) =~= drained@);
        assert(stream@ =~= taken_up);
        let means = mix(stream.as_slice());
        let waiting = if stream.len() % 2 == 1 {
            Some(stream[stream.len() - 1])
        } else {
            None
        };
        let mut joined: Vec<u32> = Vec::new();
        let mut w: usize = 0;
        while w < self.samples.len()
            invariant
                w <= self.samples@.len(),
                self.samples@ == before,
                joined@ == before.take(w as int),
            decreases self.samples@.len() - w,
        {
            joined.push(self.samples[w]);
            assert(before.take(w as int).push(before[w as int]) =~= before.take(w + 1));
            w = w + 1;
        }
        assert(before.take(before.len() as int) =~= before);
        let mut m: usize = 0;
        while m < means.len()
            invariant
                m <= means@.len(),
                joined@ == before + means@.take(m as int),
            decreases means@.len() - m,
        {
            joined.push(means[m]);
            assert(means@.take(m as int).push(means@[m as int]) =~= means@.take(m + 1));
            assert(joined@ =~= before + means@.take(m + 1));
            m = m + 1;
        }
        assert(means@.take(means@.len() as int) =~= means@);
        if joined.len() < FFT_SIZE {
            self.samples = joined;
            self.waiting = waiting;
            return AnalysisStep::Idle;
        }
        let total = joined.len();
        let mut input: Vec<u32> = Vec::new();
        let mut k: usize = 0;
        while k < FFT_SIZE
            invariant
                k <= FFT_SIZE <= joined@.len(),
                input@ == joined@.take(k as int),
            decreases FFT_SIZE - k,
        {
            input.push(joined[k]);
            assert(joined@.take(k as int).push(joined@[k as int]) =~= joined@.take(k + 1));
            k = k + 1;
        }
        let mut kept: Vec<u32> = Vec::new();
        let mut j: usize = total - OVERLAP;
        while j < total
            invariant
                total == joined@.len(),
                total >= FFT_SIZE,
                total - OVERLAP <= j <= total,
                kept@ == joined@.subrange(total - OVERLAP, j as int),
            decreases total - j,
        {
            kept.push(joined[j]);
            assert(joined@.subrange(total - OVERLAP, j as int).push(joined@[j as int])
                =~= joined@.subrange(total - OVERLAP, j + 1));
            j = j + 1;
        }
        assert(joined@.subrange(total - OVERLAP, total as int) =~= joined@.skip(total - OVERLAP));
        self.samples = kept;
        self.waiting = waiting;
        AnalysisStep::Transform(input)
    }
}

/// The sum of `values`, taken from the first to the last.
pub open spec fn total(values: Seq<u32>) -> u32
    decreases values.len(),
{
    if values.len() == 0 {
        SILENCE
    } else {
        sum(total(values.drop_last()), values.last())
    }
}

/// The square of each of `values`.
pub open spec fn squares(values: Seq<u32>) -> Seq<u32> {
    Seq::new(values.len(), |i: int| product(values[i], values[i]))
}

/// The loudness of a window: the root of the mean of the squares of its
/// samples, the mean taken over [`FFT_SIZE`] samples.
pub open spec fn loudness_of(window: Seq<u32>) -> u32 {
    root(quotient(total(squares(window)), WINDOW_LENGTH))
}

/// The level shown after `fresh` has arrived at the level `shown`: the two
/// weighted by [`SMOOTHING`] and by what it leaves to one.
pub open spec fn smoothed(shown: u32, fresh: u32) -> u32 {
    sum(product(shown, SMOOTHING), product(fresh, sum(UNITY, negated(SMOOTHING))))
}

/// The pattern of the whole number `n`.
pub open spec fn number(n: int) -> u32 {
    choose|bits: u32| #[trigger] denotes(bits, false, n * pow2(149))
}

/// The given patterns, each without its sign: a magnitude has none.
pub open spec fn without_signs(values: Seq<u32>) -> Seq<u32> {
    Seq::new(values.len(), |i: int| crate::arith::unsigned(values[i]))
}

/// The level of band `band` in a spectrum of the given magnitudes: the mean
/// magnitude over the bins of the band, by the length of the window, times
/// [`BAND_GAIN`], but one at most. It is a number from zero to one
/// whatever the bins hold.
pub open spec fn band_level(magnitudes: Seq<u32>, band: int) -> u32 {
    let bins = without_signs(magnitudes).subrange(band_low(band), band_high(band));
    let mean = quotient(total(bins), number(band_high(band) - band_low(band)));
    lesser_of(product(quotient(mean, WINDOW_LENGTH), BAND_GAIN), UNITY)
}

/// The loudness as it is read: times [`LOUDNESS_GAIN`], but one at most.
pub open spec fn loudness_read(rms: u32) -> u32 {
    lesser_of(product(rms, LOUDNESS_GAIN), UNITY)
}

/// The sum of the magnitudes from `from` up to `to`, each taken without
/// its sign.
fn total_between(values: &[u32], from: usize, to: usize) -> (acc: u32)
    requires
        from <= to <= values@.len(),
    ensures
        acc == total(without_signs(values@).subrange(from as int, to as int)),
        is_level(acc),
{
    let mut acc = SILENCE;
    let mut i = from;
    let ghost all = without_signs(values@);
    assert(all.subrange(from as int, from as int) =~= Seq::<u32>::empty());
    while i < to
        invariant
            from <= i <= to <= values@.len(),
            all == without_signs(values@),
            acc == total(all.subrange(from as int, i as int)),
            is_level(acc),
        decreases to - i,
    {
        proof {
            let next = all.subrange(from as int, i + 1);
            assert(next.drop_last() =~= all.subrange(from as int, i as int));
            assert(next.last() == all[i as int]);
            crate::arith::lemma_unsigned(values@[i as int]);
        }
        let magnitude = values[i] % 0x8000_0000;
        let ghost before = acc;
        acc = plus(acc, magnitude);
        proof {
            crate::arith::lemma_unsigned(magnitude);
            crate::arith::lemma_sum_of_levels(acc, before, magnitude);
        }
        i = i + 1;
    }
    acc
}

/// The loudness of a window.
pub fn loudness(window: &[u32]) -> (rms: u32)
    ensures
        rms == loudness_of(window@),
        is_level(rms),
{
    let mut acc = SILENCE;
    let mut i: usize = 0;
    let ghost all = squares(window@);
    assert(all.take(0) =~= Seq::<u32>::empty());
    while i < window.len()
        invariant
            i <= window@.len(),
            all == squares(window@),
            acc == total(all.take(i as int)),
            is_level(acc),
        decreases window@.len() - i,
    {
        proof {
            assert(all.take(i + 1).drop_last() =~= all.take(i as int));
            assert(all.take(i + 1).last() == product(window@[i as int], window@[i as int]));
            crate::arith::lemma_product_of_levels(window@[i as int], window@[i as int]);
        }
        let square = multiply(window[i], window[i]);
        let ghost before = acc;
        acc = plus(acc, square);
        proof {
            crate::arith::lemma_sum_of_levels(acc, before, square);
        }
        i = i + 1;
    }
    assert(all.take(window@.len() as int) =~= all);
    let mean = divide(acc, WINDOW_LENGTH);
    let rms = square_root(mean);
    proof {
        crate::arith::lemma_quotient_of_levels(mean, acc, WINDOW_LENGTH);
        crate::arith::lemma_unsigned(0x8000_0000);
        crate::arith::lemma_root_is_level(rms, mean);
    }
    rms
}

/// The level shown after `fresh` has arrived at the level `shown`.
pub fn smooth(shown: u32, fresh: u32) -> (level: u32)
    ensures
        level == smoothed(shown, fresh),
        is_level(shown) && is_level(fresh) ==> is_level(level),
        shown <= UNITY && fresh <= UNITY ==> level <= UNITY,
{
    let kept = multiply(shown, SMOOTHING);
    let weight = minus(UNITY, SMOOTHING);
    let taken = multiply(fresh, weight);
    let level = plus(kept, taken);
    proof {
        lemma_fresh_weight();
        crate::arith::lemma_product_of_levels(shown, SMOOTHING);
        crate::arith::lemma_product_of_levels(fresh, weight);
        if is_level(shown) && is_level(fresh) {
            crate::arith::lemma_sum_of_levels(level, kept, taken);
        }
        if shown <= UNITY && fresh <= UNITY {
            lemma_weights_make_one();
            crate::arith::lemma_weighted_up_to_weight(shown, SMOOTHING);
            crate::arith::lemma_weighted_up_to_weight(fresh, weight);
            crate::arith::lemma_sum_up_to(level, kept, taken, UNITY);
        }
    }
    level
}

/// The two weights of the smoothing make one.
proof fn lemma_weights_make_one()
    ensures
        crate::sample::magnitude(SMOOTHING) + crate::sample::magnitude(0x3E99_999Au32)
            == crate::sample::magnitude(UNITY),
{
    crate::sample::lemma_fields(0, 127, 0);
    crate::sample::lemma_fields(0, 126, 0x33_3333);
    crate::sample::lemma_fields(0, 125, 0x19_999A);
    lemma2_to64();
    vstd::arithmetic::power2::lemma_pow2_unfold(125);
    vstd::arithmetic::power2::lemma_pow2_unfold(126);
    let unit = pow2(124) as int;
    assert(crate::sample::magnitude(UNITY) == 0x80_0000 * (4 * unit));
    assert(crate::sample::magnitude(SMOOTHING) == 0xB3_3333 * (2 * unit));
    assert(crate::sample::magnitude(0x3E99_999Au32) == 0x99_999A * unit);
    assert(0xB3_3333 * (2 * unit) + 0x99_999A * unit == 0x80_0000 * (4 * unit))
        by (nonlinear_arith);
}

/// The levels of the bands of a spectrum, given the magnitudes of its bins
/// of positive frequency.
pub fn extract_bands(magnitudes: &[u32]) -> (bands: Vec<u32>)
    requires
        magnitudes@.len() >= USEFUL_BINS,
    ensures
        bands@.len() == NUM_BANDS,
        forall|band: int| 0 <= band < NUM_BANDS ==> bands@[band] == band_level(magnitudes@, band),
        forall|band: int| 0 <= band < NUM_BANDS ==> #[trigger] bands@[band] <= UNITY,
{
    let mut bands: Vec<u32> = Vec::new();
    let mut band: usize = 0;
    while band < NUM_BANDS
        invariant
            band <= NUM_BANDS,
            magnitudes@.len() >= USEFUL_BINS,
            bands@.len() == band,
            forall|b: int| 0 <= b < band ==> bands@[b] == band_level(magnitudes@, b),
            forall|b: int| 0 <= b < band ==> #[trigger] bands@[b] <= UNITY,
        decreases NUM_BANDS - band,
    {
        let (low, high) = band_range(band);
        let sum_of_bins = total_between(magnitudes, low, high);
        let count = pcm_sample(false, (high - low) as u32, 0);
        proof {
            let picked = number(high - low);
            assert(denotes(count, false, (high - low) * pow2(149)));
            lemma_denotes_unique(count, picked, false, (high - low) * pow2(149));
        }
        let mean = divide(sum_of_bins, count);
        let share = divide(mean, WINDOW_LENGTH);
        let level = lesser(multiply(share, BAND_GAIN), UNITY);
        proof {
            crate::arith::lemma_quotient_of_levels(mean, sum_of_bins, count);
            crate::arith::lemma_quotient_of_levels(share, mean, WINDOW_LENGTH);
            crate::arith::lemma_product_of_levels(share, BAND_GAIN);
            crate::arith::lemma_level_up_to_one(product(share, BAND_GAIN));
        }
        bands.push(level);
        band = band + 1;
    }
    bands
}

/// The loudness and the band levels that are shown.
pub struct Levels {
    rms: u32,
    bands: Vec<u32>,
}

impl Levels {
    #[verifier::type_invariant]
    spec fn well_formed(self) -> bool {
        &&& self.bands@.len() == NUM_BANDS
        &&& is_level(self.rms)
        &&& forall|i: int| 0 <= i < NUM_BANDS ==> #[trigger] self.bands@[i] <= UNITY
    }

    /// The loudness, before the gain with which it is read. It is never
    /// below zero.
    pub closed spec fn spec_rms(&self) -> u32 {
        self.rms
    }

    /// The levels of the bands: there are always [`NUM_BANDS`] of them, each
    /// a number from zero to one.
    pub closed spec fn spec_bands(&self) -> Seq<u32> {
        self.bands@
    }

    /// Levels of zero.
    pub fn new() -> (levels: Levels)
        ensures
            levels.spec_rms() == SILENCE,
            levels.spec_bands() == Seq::new(NUM_BANDS as nat, |i: int| SILENCE),
    {
        let mut bands: Vec<u32> = Vec::new();
        let mut i: usize = 0;
        while i < NUM_BANDS
            invariant
                i <= NUM_BANDS,
                bands@ == Seq::new(i as nat, |k: int| SILENCE),
            decreases NUM_BANDS - i,
        {
            bands.push(SILENCE);
            assert(bands@ =~= Seq::new((i + 1) as nat, |k: int| SILENCE));
            i = i + 1;
        }
        Levels { rms: SILENCE, bands }
    }

    /// Every level times [`DECAY`]: what happens when no sample arrives.
    pub fn decay(&mut self)
        ensures
            final(self).spec_rms() == product(old(self).spec_rms(), DECAY),
            final(self).spec_bands().len() == NUM_BANDS,
            forall|band: int|
                0 <= band < NUM_BANDS ==> final(self).spec_bands()[band] == product(
                    old(self).spec_bands()[band],
                    DECAY,
                ),
    {
        proof {
            use_type_invariant(&*self);
        }
        let mut bands: Vec<u32> = Vec::new();
        let mut i: usize = 0;
        while i < NUM_BANDS
            invariant
                i <= NUM_BANDS,
                self.bands@.len() == NUM_BANDS,
                *self == *old(self),
                forall|b: int| 0 <= b < NUM_BANDS ==> #[trigger] self.bands@[b] <= UNITY,
                bands@.len() == i,
                forall|b: int| 0 <= b < i ==> bands@[b] == product(self.bands@[b], DECAY),
                forall|b: int| 0 <= b < i ==> #[trigger] bands@[b] <= UNITY,
            decreases NUM_BANDS - i,
        {
            proof {
                let shown = self.bands@[i as int];
                assert(shown <= UNITY);
                crate::arith::lemma_product_commutes(shown, DECAY);
                crate::arith::lemma_weighted_up_to_weight(shown, DECAY);
                crate::arith::lemma_unsigned(shown);
                crate::arith::lemma_unsigned(DECAY);
                crate::arith::lemma_product_not_larger(shown, DECAY);
                crate::arith::lemma_product_of_levels(shown, DECAY);
                crate::arith::lemma_product_exists(shown, DECAY);
                crate::arith::lemma_unsigned(product(shown, DECAY));
            }
            bands.push(multiply(self.bands[i], DECAY));
            i = i + 1;
        }
        proof {
            crate::arith::lemma_product_of_levels(self.rms, DECAY);
        }
        self.rms = multiply(self.rms, DECAY);
        self.bands = bands;
    }

    /// Takes in the loudness of a new window.
    pub fn absorb_window(&mut self, window: &[u32])
        ensures
            final(self).spec_rms() == smoothed(old(self).spec_rms(), loudness_of(window@)),
            final(self).spec_bands() == old(self).spec_bands(),
    {
        proof {
            use_type_invariant(&*self);
        }
        self.rms = smooth(self.rms, loudness(window));
    }

    /// Takes in the band levels of a new spectrum, given the magnitudes of
    /// its bins of positive frequency.
    pub fn absorb_spectrum(&mut self, magnitudes: &[u32])
        requires
            magnitudes@.len() >= USEFUL_BINS,
        ensures
            final(self).spec_rms() == old(self).spec_rms(),
            final(self).spec_bands().len() == NUM_BANDS,
            forall|band: int|
                0 <= band < NUM_BANDS ==> final(self).spec_bands()[band] == smoothed(
                    old(self).spec_bands()[band],
                    band_level(magnitudes@, band),
                ),
    {
        proof {
            use_type_invariant(&*self);
        }
        let fresh = extract_bands(magnitudes);
        let mut bands: Vec<u32> = Vec::new();
        let mut i: usize = 0;
        while i < NUM_BANDS
            invariant
                i <= NUM_BANDS,
                self.bands@.len() == NUM_BANDS,
                fresh@.len() == NUM_BANDS,
                *self == *old(self),
                forall|b: int| 0 <= b < NUM_BANDS ==> #[trigger] self.bands@[b] <= UNITY,
                forall|b: int| 0 <= b < NUM_BANDS ==> #[trigger] fresh@[b] <= UNITY,
                forall|b: int| 0 <= b < NUM_BANDS ==> fresh@[b] == band_level(magnitudes@, b),
                bands@.len() == i,
                forall|b: int|
                    0 <= b < i ==> bands@[b] == smoothed(
                        self.bands@[b],
                        band_level(magnitudes@, b),
                    ),
                forall|b: int| 0 <= b < i ==> #[trigger] bands@[b] <= UNITY,
            decreases NUM_BANDS - i,
        {
            assert(self.bands@[i as int] <= UNITY);
            assert(fresh@[i as int] <= UNITY);
            bands.push(smooth(self.bands[i], fresh[i]));
            i = i + 1;
        }
        self.bands = bands;
    }

    /// The loudness as it is read: from zero to one, whatever has been
    /// heard.
    pub fn rms(&self) -> (level: u32)
        ensures
            level == loudness_read(self.spec_rms()),
            is_in_unit_range(level),
    {
        proof {
            use_type_invariant(self);
            crate::arith::lemma_product_of_levels(self.rms, LOUDNESS_GAIN);
            crate::arith::lemma_level_up_to_one(product(self.rms, LOUDNESS_GAIN));
        }
        lesser(multiply(self.rms, LOUDNESS_GAIN), UNITY)
    }

    /// The levels of the bands: each from zero to one, whatever has been
    /// heard.
    pub fn bands(&self) -> (bands: &[u32])
        ensures
            bands@ == self.spec_bands(),
            bands@.len() == NUM_BANDS,
            forall|band: int| 0 <= band < NUM_BANDS ==> #[trigger] bands@[band] <= UNITY,
    {
        proof {
            use_type_invariant(self);
        }
        self.bands.as_slice()
    }
}

/// The analyzer: the reading end of the analysis channel, the rolling
/// window and the levels.
pub struct AudioAnalyzer {
    consumer: Option<SampleConsumer>,
    window: AnalysisWindow,
    levels: Levels,
}

impl AudioAnalyzer {
    /// The samples of the window, oldest first.
    pub closed spec fn window(&self) -> Seq<u32> {
        self.window@
    }

    /// The left sample that waits for its partner.
    pub closed spec fn waiting(&self) -> Option<u32> {
        self.window.waiting()
    }

    /// Whether a channel is attached.
    pub closed spec fn attached(&self) -> bool {
        self.consumer is Some
    }

    /// The samples buffered at the reading end of the attached channel.
    pub closed spec fn buffered(&self) -> Seq<u32> {
        buffered_in(self.consumer)
    }

    /// The loudness, before the gain with which it is read.
    pub closed spec fn spec_rms(&self) -> u32 {
        self.levels.spec_rms()
    }

    /// The levels of the bands.
    pub closed spec fn spec_bands(&self) -> Seq<u32> {
        self.levels.spec_bands()
    }

    /// An analyzer with an empty window, levels of zero and no channel.
    pub fn new() -> (analyzer: AudioAnalyzer)
        ensures
            analyzer.window() == Seq::<u32>::empty(),
            analyzer.waiting() is None,
            !analyzer.attached(),
            analyzer.buffered() == Seq::<u32>::empty(),
            analyzer.spec_rms() == SILENCE,
            analyzer.spec_bands() == Seq::new(NUM_BANDS as nat, |i: int| SILENCE),
    {
        AudioAnalyzer { consumer: None, window: AnalysisWindow::new(), levels: Levels::new() }
    }

    /// Attaches a fresh, empty analysis channel for a new track, clears the
    /// window and what waits, and returns the writing end of the channel. The
    /// levels stay.
    pub fn create_buffer(&mut self) -> (producer: SampleProducer)
        ensures
            producer.pending() == Seq::<u32>::empty(),
            producer.spec_capacity() == ANALYSIS_BUFFER_SIZE,
            final(self).attached(),
            final(self).buffered() == Seq::<u32>::empty(),
            final(self).window() == Seq::<u32>::empty(),
            final(self).waiting() is None,
            final(self).spec_rms() == old(self).spec_rms(),
            final(self).spec_bands() == old(self).spec_bands(),
    {
        let (producer, consumer) = SampleChannel::new(ANALYSIS_BUFFER_SIZE).split();
        self.consumer = Some(consumer);
        self.window = AnalysisWindow::new();
        producer
    }

    /// One update: takes at most [`MAX_SAMPLES_PER_UPDATE`] samples from the
    /// channel, never waiting, and takes them into the window, one mean for
    /// each stereo pair of the stream, however the updates cut the stream.
    ///
    /// Without samples every level decays. With a full window the loudness
    /// takes in the loudness of the window, and the window is handed out to
    /// be transformed: one window at most. Else the levels stay.
    pub fn update(&mut self) -> (step: AnalysisStep)
        ensures
            final(self).attached() == old(self).attached(),
            exists|drained: Seq<u32>|
                {
                    &&& is_drain_of(
                        old(self).buffered(),
                        drained,
                        final(self).buffered(),
                        if old(self).attached() {
                            MAX_SAMPLES_PER_UPDATE as nat
                        } else {
                            0
                        },
                    )
                    &&& final(self).window() == window_after(
                        old(self).window(),
                        old(self).waiting(),
                        drained,
                    )
                    &&& final(self).waiting() == waiting_after(old(self).waiting(), drained)
                    &&& is_step_after(step, old(self).window(), old(self).waiting(), drained)
                },
            final(self).spec_bands().len() == NUM_BANDS,
            match step {
                AnalysisStep::Decay => final(self).spec_rms() == product(old(self).spec_rms(), DECAY)
                    && forall|band: int|
                    0 <= band < NUM_BANDS ==> final(self).spec_bands()[band] == product(
                        old(self).spec_bands()[band],
                        DECAY,
                    ),
                AnalysisStep::Idle => final(self).spec_rms() == old(self).spec_rms()
                    && final(self).spec_bands() == old(self).spec_bands(),
                AnalysisStep::Transform(input) => final(self).spec_rms() == smoothed(
                    old(self).spec_rms(),
                    loudness_of(input@),
                ) && final(self).spec_bands() == old(self).spec_bands(),
            },
    {
        let drained = drain_attached(&mut self.consumer, MAX_SAMPLES_PER_UPDATE);
        let ghost limit: nat = if old(self).attached() {
            MAX_SAMPLES_PER_UPDATE as nat
        } else {
            0
        };
        assert(is_drain_of(old(self).buffered(), drained@, self.buffered(), limit));
        let step = self.window.ingest(drained.as_slice());
        proof {
            let witness = drained@;
            assert(is_drain_of(old(self).buffered(), witness, self.buffered(), limit));
            assert(self.window() == window_after(
                old(self).window(),
                old(self).waiting(),
                witness,
            ));
            assert(self.waiting() == waiting_after(old(self).waiting(), witness));
            assert(is_step_after(step, old(self).window(), old(self).waiting(), witness));
        }
        let shown = self.levels.bands().len();
        assert(shown == NUM_BANDS);
        match &step {
            AnalysisStep::Decay => {
                self.levels.decay();
            },
            AnalysisStep::Idle => {},
            AnalysisStep::Transform(input) => {
                self.levels.absorb_window(input.as_slice());
            },
        }
        step
    }

    /// Takes in the spectrum of the window that the last update handed
    /// out: every band level takes in the level of its band in the
    /// spectrum. `magnitudes` holds the magnitude of each bin of positive
    /// frequency.
    pub fn process_fft(&mut self, magnitudes: &[u32])
        requires
            magnitudes@.len() >= USEFUL_BINS,
        ensures
            final(self).spec_rms() == old(self).spec_rms(),
            final(self).spec_bands().len() == NUM_BANDS,
            forall|band: int|
                0 <= band < NUM_BANDS ==> final(self).spec_bands()[band] == smoothed(
                    old(self).spec_bands()[band],
                    band_level(magnitudes@, band),
                ),
            final(self).window() == old(self).window(),
            final(self).buffered() == old(self).buffered(),
            final(self).attached() == old(self).attached(),
    {
        self.levels.absorb_spectrum(magnitudes);
    }

    /// The loudness as it is read: from zero to one, whatever has been
    /// heard.
    pub fn rms(&self) -> (level: u32)
        ensures
            level == loudness_read(self.spec_rms()),
            is_in_unit_range(level),
    {
        self.levels.rms()
    }

    /// The levels of the bands: each from zero to one, whatever has been
    /// heard.
    pub fn bands(&self) -> (bands: &[u32])
        ensures
            bands@ == self.spec_bands(),
            bands@.len() == NUM_BANDS,
            forall|band: int| 0 <= band < NUM_BANDS ==> #[trigger] bands@[band] <= UNITY,
    {
        self.levels.bands()
    }
}

/// The pattern of `2.0`.
pub const TWO: u32 = 0x4000_0000;

/// The pattern nearest to pi.
pub const PI: u32 = 0x4049_0FDB;

/// The angle whose cosine shapes the window at sample `index`: that part of
/// a full turn which the sample has of the window.
pub open spec fn window_phase(index: int) -> u32 {
    quotient(
        product(product(TWO, PI), crate::arith::whole_number(index)),
        crate::arith::whole_number(FFT_SIZE - 1),
    )
}

/// The weight of a sample under the Hann window, given the cosine of its
/// angle: half of what the cosine leaves to one.
pub open spec fn window_weight(cosine: u32) -> u32 {
    product(HALF, sum(UNITY, negated(cosine)))
}

/// The angles whose cosines shape the window, one for each of its
/// [`FFT_SIZE`] samples.
pub fn window_phases() -> (phases: Vec<u32>)
    ensures
        phases@.len() == FFT_SIZE,
        forall|i: int| 0 <= i < FFT_SIZE ==> phases@[i] == window_phase(i),
{
    let turn = multiply(TWO, PI);
    let last = crate::arith::from_whole((FFT_SIZE - 1) as u64);
    let mut phases: Vec<u32> = Vec::new();
    let mut i: usize = 0;
    while i < FFT_SIZE
        invariant
            i <= FFT_SIZE,
            turn == product(TWO, PI),
            last == crate::arith::whole_number(FFT_SIZE - 1),
            phases@.len() == i,
            forall|k: int| 0 <= k < i ==> phases@[k] == window_phase(k),
        decreases FFT_SIZE - i,
    {
        phases.push(divide(multiply(turn, crate::arith::from_whole(i as u64)), last));
        i = i + 1;
    }
    phases
}

/// The samples of a window under the Hann window, given the cosine of the
/// angle of each sample: each sample times its weight. Where there are
/// fewer cosines than samples, the samples without one are left out.
pub fn apply_window(samples: &[u32], cosines: &[u32]) -> (windowed: Vec<u32>)
    ensures
        windowed@.len() == if samples@.len() <= cosines@.len() {
            samples@.len()
        } else {
            cosines@.len()
        },
        forall|i: int|
            0 <= i < windowed@.len() ==> windowed@[i] == product(
                samples@[i],
                window_weight(cosines@[i]),
            ),
{
    let count = if samples.len() <= cosines.len() {
        samples.len()
    } else {
        cosines.len()
    };
    let mut windowed: Vec<u32> = Vec::new();
    let mut i: usize = 0;
    while i < count
        invariant
            i <= count,
            count <= samples@.len(),
            count <= cosines@.len(),
            windowed@.len() == i,
            forall|k: int|
                0 <= k < i ==> windowed@[k] == product(samples@[k], window_weight(cosines@[k])),
        decreases count - i,
    {
        let weight = multiply(HALF, minus(UNITY, cosines[i]));
        windowed.push(multiply(samples[i], weight));
        i = i + 1;
    }
    windowed
}

impl Default for AudioAnalyzer {
    /// An analyzer with an empty window, levels of zero and no channel.
    fn default() -> (analyzer: AudioAnalyzer)
        ensures
            analyzer.window() == Seq::<u32>::empty(),
            !analyzer.attached(),
            analyzer.spec_rms() == SILENCE,
            analyzer.spec_bands() == Seq::new(NUM_BANDS as nat, |i: int| SILENCE),
    {
        AudioAnalyzer::new()
    }
}

/// The bin at which band `band` begins. The edges follow a squared curve,
/// so that low bands are narrow and high bands are wide: edge `band` lies at
/// `(band / NUM_BANDS)^2` of the useful bins.
pub open spec fn band_edge(band: int) -> int {
    band * band * USEFUL_BINS as int / (NUM_BANDS as int * NUM_BANDS as int)
}

/// The first bin of band `band`.
pub open spec fn band_low(band: int) -> int {
    band_edge(band)
}

/// The bin after the last bin of band `band`: the next edge, but at least one
/// bin after the first and at most the number of useful bins.
pub open spec fn band_high(band: int) -> int {
    let next = if band_edge(band + 1) > band_low(band) + 1 {
        band_edge(band + 1)
    } else {
        band_low(band) + 1
    };
    if next < USEFUL_BINS as int {
        next
    } else {
        USEFUL_BINS as int
    }
}

/// The bins of band `band`: the first, and the one after the last. The
/// band's level is the mean magnitude over these bins.
pub fn band_range(band: usize) -> (range: (usize, usize))
    requires
        band < NUM_BANDS,
    ensures
        range.0 == band_low(band as int),
        range.1 == band_high(band as int),
        range.0 == 4 * band * band,
        range.1 == 4 * (band + 1) * (band + 1),
        range.0 < range.1 <= USEFUL_BINS,
{
    proof {
        lemma_band_edge(band as int);
        lemma_band_edge(band + 1);
        assert((band + 1) * (band + 1) * 1024 <= 256 * 1024) by (nonlinear_arith)
            requires
                0 <= (band + 1) * (band + 1) <= 256,
        ;
        assert(band * band * 1024 <= 256 * 1024) by (nonlinear_arith)
            requires
                0 <= band * band <= 256,
        ;
    }
    let low = band * band * USEFUL_BINS / (NUM_BANDS * NUM_BANDS);
    let edge = (band + 1) * (band + 1) * USEFUL_BINS / (NUM_BANDS * NUM_BANDS);
    let next = if edge > low + 1 {
        edge
    } else {
        low + 1
    };
    let high = if next < USEFUL_BINS {
        next
    } else {
        USEFUL_BINS
    };
    proof {
        lemma_bands_partition_bins(band as int);
    }
    (low, high)
}

/// Edge `band` lies at bin `4 * band^2`.
pub proof fn lemma_band_edge(band: int)
    requires
        0 <= band <= NUM_BANDS,
    ensures
        band_edge(band) == 4 * band * band,
        0 <= band * band <= 256,
{
    assert(0 <= band * band <= 256) by (nonlinear_arith)
        requires
            0 <= band <= 16,
    ;
    assert(band * band * 1024 / 256 == 4 * band * band) by (nonlinear_arith)
        requires
            0 <= band * band <= 256,
    ;
}

/// The bands lie side by side and cover the useful bins: the first begins
/// at bin zero, each begins where the one before ends, none is empty, and the
/// last ends with the last useful bin. So every useful bin belongs to one
/// band and one only.
pub proof fn lemma_bands_partition_bins(band: int)
    requires
        0 <= band < NUM_BANDS,
    ensures
        band_low(0) == 0,
        band_low(band) < band_high(band),
        band + 1 < NUM_BANDS ==> band_high(band) == band_low(band + 1),
        band + 1 == NUM_BANDS ==> band_high(band) == USEFUL_BINS,
{
    lemma_band_edge(0);
    lemma_band_edge(band);
    lemma_band_edge(band + 1);
    assert(4 * (band + 1) * (band + 1) == 4 * band * band + 8 * band + 4) by (nonlinear_arith);
    assert(4 * band * band + 8 * band + 4 <= 1024) by (nonlinear_arith)
        requires
            0 <= band < 16,
    ;
    if band + 1 == NUM_BANDS {
        assert(4 * band * band + 8 * band + 4 == 1024) by (nonlinear_arith)
            requires
                band == 15,
        ;
    }
}

/// The weight that [`SMOOTHING`] leaves to a new level: the pattern of
/// `0.3`, to the nearest step.
pub proof fn lemma_fresh_weight()
    ensures
        sum(UNITY, negated(SMOOTHING)) == 0x3E99_999Au32,
{
    let w = 0x3E99_999Au32;
    crate::sample::lemma_unity_is_one();
    crate::sample::lemma_fields(0, 126, 0x33_3333);
    crate::sample::lemma_fields(0x8000_0000, 126, 0x33_3333);
    crate::sample::lemma_fields(0, 125, 0x19_999A);
    lemma2_to64();
    vstd::arithmetic::power2::lemma_pow2_unfold(125);
    vstd::arithmetic::power2::lemma_pow2_adds(25, 124);
    let unit = pow2(124) as int;
    assert(crate::sample::magnitude(UNITY) == 0x200_0000 * unit);
    assert(crate::sample::magnitude(negated(SMOOTHING)) == 0xB3_3333 * (2 * unit));
    assert(crate::sample::magnitude(w) == 0x99_999A * unit);
    let exact = crate::arith::signed_magnitude(UNITY) + crate::arith::signed_magnitude(
        negated(SMOOTHING),
    );
    assert(exact == 0x99_999A * unit) by (nonlinear_arith)
        requires
            exact == 0x200_0000 * unit - 0xB3_3333 * (2 * unit),
    ;
    vstd::arithmetic::power2::lemma_pow2_pos(124);
    assert(crate::sample::magnitude(w) * 1 == exact);
    crate::arith::lemma_nearest_exact_step(w, exact);
    assert(crate::arith::is_sum(w, UNITY, negated(SMOOTHING)));
    crate::arith::lemma_sum_unique(w, UNITY, negated(SMOOTHING));
}

/// When silence arrives, a level that is shown falls, but not to zero at
/// once: a level from the smallest normal number up becomes its product
/// with [`SMOOTHING`], which is smaller and is not zero.
pub proof fn lemma_silence_lowers_level(shown: u32)
    requires
        0x0080_0000 <= shown < crate::arith::INFINITY,
    ensures
        smoothed(shown, SILENCE) == product(shown, SMOOTHING),
        crate::sample::magnitude(smoothed(shown, SILENCE)) < crate::sample::magnitude(shown),
        crate::sample::magnitude(smoothed(shown, SILENCE)) > 0,
{
    lemma_fresh_weight();
    crate::arith::lemma_zero_times(0x3E99_999A);
    let kept = product(shown, SMOOTHING);
    crate::arith::lemma_product_exists(shown, SMOOTHING);
    crate::arith::lemma_product_not_larger(shown, SMOOTHING);
    crate::arith::lemma_product_smaller(shown, SMOOTHING);
    lemma_weight_keeps_normal_levels(shown, SMOOTHING);
    crate::arith::lemma_sum_with_zero(kept);
}

/// Silence and the lack of samples never raise a level: whatever finite
/// level without a sign is shown, what is shown next is not larger. Below
/// the smallest normal number a level may stay where it is.
pub proof fn lemma_silence_never_raises_level(shown: u32)
    requires
        shown < crate::arith::INFINITY,
    ensures
        smoothed(shown, SILENCE) == product(shown, SMOOTHING),
        crate::sample::magnitude(smoothed(shown, SILENCE)) <= crate::sample::magnitude(shown),
        crate::sample::magnitude(product(shown, DECAY)) <= crate::sample::magnitude(shown),
{
    lemma_fresh_weight();
    crate::arith::lemma_zero_times(0x3E99_999A);
    let kept = product(shown, SMOOTHING);
    crate::arith::lemma_unsigned(shown);
    crate::arith::lemma_unsigned(SMOOTHING);
    crate::arith::lemma_unsigned(DECAY);
    crate::arith::lemma_unsigned(kept);
    crate::arith::lemma_product_exists(shown, SMOOTHING);
    crate::arith::lemma_product_not_larger(shown, SMOOTHING);
    crate::arith::lemma_product_not_larger(shown, DECAY);
    crate::arith::lemma_sum_with_zero(kept);
}

/// When no sample arrives, a level that is shown falls, but not to zero at
/// once: the product of a level from the smallest normal number up with
/// [`DECAY`] is smaller and is not zero.
pub proof fn lemma_decay_lowers_level(shown: u32)
    requires
        0x0080_0000 <= shown < crate::arith::INFINITY,
    ensures
        crate::sample::magnitude(product(shown, DECAY)) < crate::sample::magnitude(shown),
        crate::sample::magnitude(product(shown, DECAY)) > 0,
{
    crate::arith::lemma_product_smaller(shown, DECAY);
    lemma_weight_keeps_normal_levels(shown, DECAY);
}

/// The product of a normal level and a weight of at least one half is a
/// finite number without a sign, and not zero.
proof fn lemma_weight_keeps_normal_levels(shown: u32, weight: u32)
    requires
        0x0080_0000 <= shown < crate::arith::INFINITY,
        HALF <= weight <= UNITY,
    ensures
        !crate::sample::is_nan(product(shown, weight)),
        !crate::sample::sign_bit(product(shown, weight)),
        crate::sample::magnitude(product(shown, weight)) > 0,
{
    crate::arith::lemma_product_exists(shown, weight);
    crate::arith::lemma_product_not_larger(shown, weight);
    crate::sample::lemma_fields(0, 126, 0);
    crate::sample::lemma_fields(0, 1, 0);
    lemma2_to64();
    if HALF < weight {
        crate::sample::lemma_smaller_pattern_smaller_magnitude(HALF, weight);
    }
    if 0x0080_0000 < shown {
        crate::sample::lemma_smaller_pattern_smaller_magnitude(0x0080_0000, shown);
    }
    vstd::arithmetic::power2::lemma_pow2_adds(23, 125);
    vstd::arithmetic::power2::lemma_pow2_adds(1, 148);
    assert(crate::sample::magnitude(HALF) == pow2(148));
    assert(crate::sample::magnitude(0x0080_0000u32) == 0x80_0000);
    assert(crate::sample::magnitude(shown) * crate::sample::magnitude(weight) >= pow2(149))
        by (nonlinear_arith)
        requires
            crate::sample::magnitude(shown) >= 0x80_0000,
            crate::sample::magnitude(weight) >= pow2(148),
            pow2(149) == 2 * pow2(148),
    ;
    crate::arith::lemma_product_not_zero(shown, weight);
}

/// A window of silence has no loudness.
pub proof fn lemma_silent_window_has_no_loudness(window: Seq<u32>)
    requires
        forall|i: int| 0 <= i < window.len() ==> window[i] == SILENCE,
    ensures
        loudness_of(window) == SILENCE,
{
    crate::arith::lemma_zero_times(SILENCE);
    lemma_total_of_zeros(squares(window));
    crate::arith::lemma_zero_by(WINDOW_LENGTH);
    crate::arith::lemma_root_of_zero();
}

/// The sum of zeros is zero.
proof fn lemma_total_of_zeros(values: Seq<u32>)
    requires
        forall|i: int| 0 <= i < values.len() ==> values[i] == SILENCE,
    ensures
        total(values) == SILENCE,
    decreases values.len(),
{
    if values.len() > 0 {
        lemma_total_of_zeros(values.drop_last());
        crate::arith::lemma_sum_with_zero(SILENCE);
    }
}

/// Every whole number from one up to `2^24` has a pattern, and
/// [`number`] is that pattern: a finite number above zero.
pub proof fn lemma_number_exists(n: int)
    requires
        1 <= n < 0x100_0000,
    ensures
        denotes(number(n), false, n * pow2(149)),
        0 < number(n) < crate::arith::INFINITY,
{
    lemma2_to64();
    assert(n == n * pow2(0)) by (nonlinear_arith)
        requires
            pow2(0) == 1,
    ;
    let bits = lemma_number_pattern(n, n, 0);
    assert(denotes(bits, false, n * pow2(149)));
    let picked = number(n);
    assert(denotes(picked, false, n * pow2(149)));
    vstd::arithmetic::power2::lemma_pow2_pos(149);
    assert(n * pow2(149) > 0) by (nonlinear_arith)
        requires
            n >= 1,
            pow2(149) > 0,
    ;
    crate::sample::lemma_fields(0, 0, 0);
}

/// The pattern of the whole number `n`, found by doubling `m`, which is
/// `n * 2^lifted`, until it has 24 binary digits.
proof fn lemma_number_pattern(n: int, m: int, lifted: nat) -> (bits: u32)
    requires
        1 <= n,
        1 <= m < 0x100_0000,
        m == n * pow2(lifted),
        pow2(lifted) <= m,
        lifted <= 23,
    ensures
        denotes(bits, false, n * pow2(149)),
    decreases 0x100_0000 - m,
{
    lemma2_to64();
    if m >= 0x80_0000 {
        let j = (149 - lifted) as nat;
        let bits = (j * 0x80_0000 + m) as u32;
        crate::arith::lemma_step_magnitude(j, m as nat);
        vstd::arithmetic::power2::lemma_pow2_adds(lifted, j);
        assert(m * pow2(j) == n * pow2(149)) by (nonlinear_arith)
            requires
                m == n * pow2(lifted),
                pow2(149) == pow2(lifted) * pow2(j),
        ;
        crate::sample::lemma_fields(0, (j + 1) as u32, (m - 0x80_0000) as u32);
        bits
    } else {
        vstd::arithmetic::power2::lemma_pow2_unfold(lifted + 1);
        if lifted >= 23 {
            assert(false);
        }
        assert(2 * m == n * pow2(lifted + 1)) by (nonlinear_arith)
            requires
                m == n * pow2(lifted),
                pow2(lifted + 1) == 2 * pow2(lifted),
        ;
        lemma_number_pattern(n, 2 * m, lifted + 1)
    }
}

/// A spectrum of silence gives every band the level zero.
pub proof fn lemma_silent_spectrum_has_no_levels(magnitudes: Seq<u32>, band: int)
    requires
        magnitudes.len() >= USEFUL_BINS,
        forall|i: int| 0 <= i < magnitudes.len() ==> magnitudes[i] == SILENCE,
        0 <= band < NUM_BANDS,
    ensures
        band_level(magnitudes, band) == SILENCE,
{
    lemma_bands_partition_bins(band);
    lemma_silent_band_has_no_level(magnitudes, band);
}

/// A band has the level zero wherever its own bins are silent, whatever the
/// other bins hold: a tone shows in no band but the one that holds its bin.
pub proof fn lemma_silent_band_has_no_level(magnitudes: Seq<u32>, band: int)
    requires
        magnitudes.len() >= USEFUL_BINS,
        0 <= band < NUM_BANDS,
        forall|i: int| band_low(band) <= i < band_high(band) ==> magnitudes[i] == SILENCE,
    ensures
        band_level(magnitudes, band) == SILENCE,
{
    lemma_bands_partition_bins(band);
    lemma_band_edge(band);
    lemma_band_edge(band + 1);
    let low = band_low(band);
    let high = band_high(band);
    assert(high <= USEFUL_BINS);
    crate::arith::lemma_unsigned(SILENCE);
    lemma_total_of_zeros(without_signs(magnitudes).subrange(low, high));
    lemma_number_exists(high - low);
    crate::arith::lemma_zero_by(number(high - low));
    crate::arith::lemma_zero_by(WINDOW_LENGTH);
    crate::arith::lemma_zero_times(BAND_GAIN);
    crate::arith::lemma_unsigned(SILENCE);
    crate::arith::lemma_unsigned(UNITY);
}

} // verus!
