//! Histogram matching: the distribution of first-channel intensities of one
//! buffer is moved onto that of another.

use vstd::prelude::*;
use crate::buffer::lemma_pixel_in_bounds;
use crate::buffer::lemma_with_pixel;
use crate::buffer::Raster;
use crate::buffer::SynthPixelBuffer;
use crate::pixel::spec_greyscale;
use crate::pixel::SynthPixel;

verus! {

/// Number of intensities that a byte can hold, and so of buckets of a
/// histogram.
pub const BUCKETS: usize = 256;

/// How many of the first `pixels` pixels have `value` in their first
/// channel.
pub open spec fn spec_count(samples: Seq<u8>, channels: nat, pixels: nat, value: int) -> nat
    decreases pixels,
{
    if pixels == 0 {
        0
    } else {
        let before = spec_count(samples, channels, (pixels - 1) as nat, value);
        if samples[(pixels - 1) * channels] == value {
            before + 1
        } else {
            before
        }
    }
}

/// The histogram of the first channel: for each intensity, the number of
/// pixels that have it.
pub open spec fn spec_histogram(raster: Raster, channels: nat) -> Seq<u64> {
    Seq::new(
        BUCKETS as nat,
        |value: int|
            spec_count(raster.samples, channels, raster.pixel_count() as nat, value) as u64,
    )
}

/// No intensity occurs more often than there are pixels.
pub proof fn lemma_count_bound(samples: Seq<u8>, channels: nat, pixels: nat, value: int)
    ensures
        spec_count(samples, channels, pixels, value) <= pixels,
    decreases pixels,
{
    if pixels > 0 {
        lemma_count_bound(samples, channels, (pixels - 1) as nat, value);
    }
}

/// The histogram of the first channel of `img`.
pub fn get_histogram<P: SynthPixel>(img: &SynthPixelBuffer<P>) -> (hist: Vec<u64>)
    requires
        img.wf(),
    ensures
        hist@ == spec_histogram(img@, P::spec_channel_count()),
{
    proof {
        P::lemma_format();
    }
    let mut hist: Vec<u64> = Vec::new();
    let mut bucket: usize = 0;
    while bucket < BUCKETS
        invariant
            bucket <= BUCKETS,
            hist@.len() == bucket,
            forall|value: int| 0 <= value < bucket ==> hist@[value] == 0,
        decreases BUCKETS - bucket,
    {
        hist.push(0);
        bucket += 1;
    }
    let channels: usize = P::channel_count();
    let (width, height) = img.dimensions();
    let raw = img.as_raw();
    let pixels: usize = (width as usize) * (height as usize);
    assert(pixels * channels == raw@.len()) by (nonlinear_arith)
        requires
            pixels == width * height,
            raw@.len() == width * height * channels,
    ;
    let mut i: usize = 0;
    while i < pixels
        invariant
            i <= pixels,
            1 <= channels <= 4,
            channels == P::spec_channel_count(),
            pixels * channels == raw.len(),
            raw@ == img@.samples,
            hist@.len() == BUCKETS,
            forall|value: int|
                0 <= value < BUCKETS ==> hist@[value] == spec_count(
                    raw@,
                    channels as nat,
                    i as nat,
                    value,
                ),
        decreases pixels - i,
    {
        assert(i * channels + channels <= pixels * channels) by (nonlinear_arith)
            requires
                i < pixels,
                0 <= channels,
        ;
        let value: u8 = raw[i * channels];
        proof {
            lemma_count_bound(raw@, channels as nat, i as nat, value as int);
        }
        let count: u64 = hist[value as usize];
        hist[value as usize] = count + 1;
        i += 1;
    }
    assert(hist@ =~= spec_histogram(img@, P::spec_channel_count()));
    hist
}

/// The number of pixels with an intensity of at most `upto`: the sum of the
/// buckets `0 ..= upto`.
pub open spec fn spec_cumulative(hist: Seq<u64>, upto: int) -> int
    decreases upto + 1,
{
    if upto < 0 {
        0
    } else {
        spec_cumulative(hist, upto - 1) + hist[upto]
    }
}

/// The cumulative counts of a histogram, bucket by bucket.
pub open spec fn spec_cdf(hist: Seq<u64>) -> Seq<u64> {
    Seq::new(BUCKETS as nat, |value: int| spec_cumulative(hist, value) as u64)
}

/// Cumulative counts never decrease.
pub proof fn lemma_cumulative_monotonic(hist: Seq<u64>, i: int, j: int)
    requires
        i <= j,
    ensures
        0 <= spec_cumulative(hist, i) <= spec_cumulative(hist, j),
    decreases
            (if j < 0 {
                0
            } else {
                j + 1
            }),
{
    if j < 0 {
    } else if i == j {
        lemma_cumulative_monotonic(hist, i - 1, j - 1);
    } else {
        lemma_cumulative_monotonic(hist, i, j - 1);
    }
}

/// A cumulative distribution over the intensities, held exactly: the value of
/// bucket `i` is the fraction `cumulative[i] / cumulative[255]`, so the last
/// bucket is one wherever the histogram counted a pixel.
pub struct Cdf {
    pub cumulative: Vec<u64>,
}

impl Cdf {
    /// One count for each intensity, none smaller than the one before.
    pub open spec fn wf(&self) -> bool {
        &&& self.cumulative@.len() == BUCKETS
        &&& forall|i: int, j: int|
            0 <= i <= j < BUCKETS ==> self.cumulative@[i] <= self.cumulative@[j]
    }

    /// The number of pixels counted: what every bucket is divided by.
    pub open spec fn total(&self) -> int {
        self.cumulative@[BUCKETS - 1] as int
    }

    /// Whether the fraction of `bucket` is one.
    pub open spec fn spec_is_one(&self, bucket: int) -> bool {
        self.total() > 0 && self.cumulative@[bucket] == self.total()
    }
}

/// Whether the fraction `a / total_a` is greater than `b / total_b`.
pub open spec fn spec_exceeds(a: u64, total_a: u64, b: u64, total_b: u64) -> bool {
    a * total_b > b * total_a
}

/// Whether the fraction `a / total_a` is greater than `b / total_b`,
/// compared exactly.
pub fn exceeds(a: u64, total_a: u64, b: u64, total_b: u64) -> (greater: bool)
    ensures
        greater == spec_exceeds(a, total_a, b, total_b),
{
    assert(a * total_b <= 0xffff_ffff_ffff_ffff * 0xffff_ffff_ffff_ffff) by (nonlinear_arith)
        requires
            a <= 0xffff_ffff_ffff_ffff,
            total_b <= 0xffff_ffff_ffff_ffff,
    ;
    assert(b * total_a <= 0xffff_ffff_ffff_ffff * 0xffff_ffff_ffff_ffff) by (nonlinear_arith)
        requires
            b <= 0xffff_ffff_ffff_ffff,
            total_a <= 0xffff_ffff_ffff_ffff,
    ;
    (a as u128) * (total_b as u128) > (b as u128) * (total_a as u128)
}

/// The cumulative distribution of a histogram.
pub fn get_cdf(a: &[u64]) -> (cdf: Cdf)
    requires
        a@.len() == BUCKETS,
        spec_cumulative(a@, BUCKETS - 1) <= u64::MAX,
    ensures
        cdf.cumulative@ == spec_cdf(a@),
        cdf.wf(),
        cdf.total() == spec_cumulative(a@, BUCKETS - 1),
        spec_cumulative(a@, BUCKETS - 1) > 0 ==> cdf.spec_is_one(BUCKETS - 1),
{
    let mut cumm: Vec<u64> = Vec::new();
    let mut sum: u64 = 0;
    let mut i: usize = 0;
    while i < BUCKETS
        invariant
            i <= BUCKETS,
            a@.len() == BUCKETS,
            spec_cumulative(a@, BUCKETS - 1) <= u64::MAX,
            cumm@.len() == i,
            sum == spec_cumulative(a@, i - 1),
            forall|k: int| 0 <= k < i ==> cumm@[k] == spec_cumulative(a@, k),
        decreases BUCKETS - i,
    {
        proof {
            lemma_cumulative_monotonic(a@, i as int, BUCKETS - 1);
        }
        sum = sum + a[i];
        cumm.push(sum);
        i += 1;
    }
    let cdf = Cdf { cumulative: cumm };
    assert(cdf.cumulative@ =~= spec_cdf(a@));
    assert forall|i: int, j: int| 0 <= i <= j < BUCKETS implies cdf.cumulative@[i]
        <= cdf.cumulative@[j] by {
        lemma_cumulative_monotonic(a@, i, j);
    }
    cdf
}

/// How many of the first `pixels` pixels have a first channel of at most
/// `upto`.
pub open spec fn spec_count_upto(samples: Seq<u8>, channels: nat, pixels: nat, upto: int) -> nat
    decreases pixels,
{
    if pixels == 0 {
        0
    } else {
        let before = spec_count_upto(samples, channels, (pixels - 1) as nat, upto);
        if samples[(pixels - 1) * channels] <= upto {
            before + 1
        } else {
            before
        }
    }
}

/// Counting the pixels of at most `upto` is counting those below `upto` and
/// those of exactly `upto`.
pub proof fn lemma_count_upto_step(samples: Seq<u8>, channels: nat, pixels: nat, upto: int)
    ensures
        spec_count_upto(samples, channels, pixels, upto) == spec_count_upto(
            samples,
            channels,
            pixels,
            upto - 1,
        ) + spec_count(samples, channels, pixels, upto),
        upto < 0 ==> spec_count_upto(samples, channels, pixels, upto) == 0,
        upto >= 255 ==> spec_count_upto(samples, channels, pixels, upto) == pixels,
    decreases pixels,
{
    if pixels > 0 {
        lemma_count_upto_step(samples, channels, (pixels - 1) as nat, upto);
    }
}

/// Bucket `upto` of the cumulative counts of a buffer is the number of its
/// pixels with a first channel of at most `upto`.
pub proof fn lemma_cumulative_counts(raster: Raster, channels: nat, upto: int)
    requires
        upto < BUCKETS,
        raster.pixel_count() <= u64::MAX,
    ensures
        spec_cumulative(spec_histogram(raster, channels), upto) == spec_count_upto(
            raster.samples,
            channels,
            raster.pixel_count() as nat,
            upto,
        ),
    decreases upto + 1,
{
    let pixels = raster.pixel_count() as nat;
    lemma_count_upto_step(raster.samples, channels, pixels, upto);
    if upto >= 0 {
        lemma_cumulative_counts(raster, channels, upto - 1);
        lemma_count_bound(raster.samples, channels, pixels, upto);
    }
}

/// The last bucket of the cumulative counts of a buffer is the number of its
/// pixels.
pub proof fn lemma_cumulative_total(raster: Raster, channels: nat)
    requires
        raster.pixel_count() <= u64::MAX,
    ensures
        spec_cumulative(spec_histogram(raster, channels), BUCKETS - 1) == raster.pixel_count(),
{
    lemma_cumulative_counts(raster, channels, BUCKETS - 1);
    lemma_count_upto_step(raster.samples, channels, raster.pixel_count() as nat, BUCKETS - 1);
}

/// The first bucket at or after `from` at which the target distribution is
/// above the source distribution at `value`, and `BUCKETS` where there is
/// none.
pub open spec fn spec_position(target: Seq<u64>, source: Seq<u64>, value: int, from: int) -> int
    decreases BUCKETS - from,
{
    if from >= BUCKETS {
        BUCKETS as int
    } else if spec_exceeds(target[from], target[BUCKETS - 1], source[value], source[BUCKETS - 1]) {
        from
    } else {
        spec_position(target, source, value, from + 1)
    }
}

/// The intensity that `value` is moved to: one below the first bucket at
/// which the target distribution is above the source distribution at `value`.
/// Where that bucket is the first of all, there is no intensity below it and
/// the result is zero; where there is no such bucket, `value` stays.
pub open spec fn spec_matched(target: Seq<u64>, source: Seq<u64>, value: u8) -> u8 {
    let position = spec_position(target, source, value as int, 0);
    if position >= BUCKETS {
        value
    } else if position == 0 {
        0
    } else {
        (position - 1) as u8
    }
}

/// The intensity that `value` is moved to when a buffer with the cumulative
/// distribution `source_cdf` is matched to one with `target_cdf`.
pub fn matched_intensity(target_cdf: &Cdf, source_cdf: &Cdf, value: u8) -> (matched: u8)
    requires
        target_cdf.wf(),
        source_cdf.wf(),
    ensures
        matched == spec_matched(target_cdf.cumulative@, source_cdf.cumulative@, value),
{
    let target_total: u64 = target_cdf.cumulative[BUCKETS - 1];
    let source_total: u64 = source_cdf.cumulative[BUCKETS - 1];
    let source_count: u64 = source_cdf.cumulative[value as usize];
    let mut position: usize = 0;
    while position < BUCKETS
        invariant
            position <= BUCKETS,
            target_cdf.wf(),
            target_total == target_cdf.cumulative@[BUCKETS - 1],
            source_total == source_cdf.cumulative@[BUCKETS - 1],
            source_count == source_cdf.cumulative@[value as int],
            spec_position(target_cdf.cumulative@, source_cdf.cumulative@, value as int, 0)
                == spec_position(
                target_cdf.cumulative@,
                source_cdf.cumulative@,
                value as int,
                position as int,
            ),
        decreases BUCKETS - position,
    {
        if exceeds(target_cdf.cumulative[position], target_total, source_count, source_total) {
            if position == 0 {
                return 0;
            }
            return (position - 1) as u8;
        }
        position += 1;
    }
    value
}

/// The buffer in which each pixel of `source` is the grey of the intensity
/// that its first channel is moved to.
pub open spec fn spec_matches(
    result: Raster,
    source: Raster,
    target: Raster,
    channels: nat,
    has_alpha: bool,
) -> bool {
    &&& result.width == source.width
    &&& result.height == source.height
    &&& result.well_formed(channels)
    &&& forall|i: int|
        0 <= i < source.pixel_count() ==> #[trigger] result.pixel(channels, i) == spec_greyscale(
            channels,
            has_alpha,
            spec_matched(
                spec_cdf(spec_histogram(target, channels)),
                spec_cdf(spec_histogram(source, channels)),
                source.first_channel(channels, i),
            ),
        )
}

/// Moves the distribution of the first channel of `source` onto that of
/// `target`: each pixel of `source` becomes the opaque grey of the intensity
/// that its first channel is matched to.
pub fn match_histograms<P: SynthPixel>(
    source: &mut SynthPixelBuffer<P>,
    target: &SynthPixelBuffer<P>,
)
    requires
        old(source).wf(),
        target.wf(),
        old(source)@.width >= 1,
        old(source)@.height >= 1,
        target@.width >= 1,
        target@.height >= 1,
    ensures
        final(source).wf(),
        spec_matches(
            final(source)@,
            old(source)@,
            target@,
            P::spec_channel_count(),
            P::spec_has_alpha(),
        ),
{
    let ghost channels = P::spec_channel_count();
    let ghost before = source@;
    proof {
        P::lemma_format();
        lemma_cumulative_total(target@, channels);
        lemma_cumulative_total(before, channels);
    }
    let target_hist = get_histogram::<P>(target);
    let source_hist = get_histogram::<P>(source);

    let target_cdf = get_cdf(target_hist.as_slice());
    let source_cdf = get_cdf(source_hist.as_slice());

    let (dx, dy) = source.dimensions();

    let mut y: u32 = 0;
    while y < dy
        invariant
            y <= dy,
            channels == P::spec_channel_count(),
            1 <= channels <= 4,
            before.well_formed(channels),
            before.width == dx,
            before.height == dy,
            source.wf(),
            source@.width == dx,
            source@.height == dy,
            target_cdf.wf(),
            source_cdf.wf(),
            target_cdf.cumulative@ == spec_cdf(spec_histogram(target@, channels)),
            source_cdf.cumulative@ == spec_cdf(spec_histogram(before, channels)),
            forall|i: int|
                0 <= i < before.pixel_count() ==> #[trigger] source@.pixel(channels, i) == if i < y
                    * dx {
                    spec_greyscale(
                        channels,
                        P::spec_has_alpha(),
                        spec_matched(
                            target_cdf.cumulative@,
                            source_cdf.cumulative@,
                            before.first_channel(channels, i),
                        ),
                    )
                } else {
                    before.pixel(channels, i)
                },
        decreases dy - y,
    {
        let mut x: u32 = 0;
        while x < dx
            invariant
                x <= dx,
                y < dy,
                channels == P::spec_channel_count(),
                1 <= channels <= 4,
                before.well_formed(channels),
                before.width == dx,
                before.height == dy,
                source.wf(),
                source@.width == dx,
                source@.height == dy,
                target_cdf.wf(),
                source_cdf.wf(),
                forall|i: int|
                    0 <= i < before.pixel_count() ==> #[trigger] source@.pixel(channels, i) == if i
                        < y * dx + x {
                        spec_greyscale(
                            channels,
                            P::spec_has_alpha(),
                            spec_matched(
                                target_cdf.cumulative@,
                                source_cdf.cumulative@,
                                before.first_channel(channels, i),
                            ),
                        )
                    } else {
                        before.pixel(channels, i)
                    },
            decreases dx - x,
        {
            let ghost index = y * dx + x;
            let ghost current = source@;
            proof {
                lemma_pixel_in_bounds(dx as int, dy as int, channels as int, x as int, y as int);
            }
            let pixel = source.get_pixel(x, y);
            proof {
                P::lemma_format();
                pixel.lemma_channels();
                assert((index + 1) * channels == index * channels + channels) by (nonlinear_arith);
            }
            let pixel_value: u8 = pixel.colors()[0];
            assert(pixel_value == before.first_channel(channels, index)) by {
                assert(current.pixel(channels, index) == before.pixel(channels, index));
                assert(before.pixel(channels, index)[0] == before.samples[index * channels + 0]);
            }
            let new_pixel_val = matched_intensity(&target_cdf, &source_cdf, pixel_value);
            let grey = P::greyscale(new_pixel_val);
            source.put_pixel(x, y, grey);
            proof {
                grey.lemma_channels();
                assert forall|i: int| 0 <= i < before.pixel_count() implies #[trigger] source@.pixel(
                    channels,
                    i,
                ) == if i < y * dx + (x + 1) {
                    spec_greyscale(
                        channels,
                        P::spec_has_alpha(),
                        spec_matched(
                            target_cdf.cumulative@,
                            source_cdf.cumulative@,
                            before.first_channel(channels, i),
                        ),
                    )
                } else {
                    before.pixel(channels, i)
                } by {
                    lemma_with_pixel(current, channels, index, grey.spec_channels(), i);
                    assert(current.pixel(channels, i) == current.pixel(channels, i));
                }
                lemma_with_pixel(current, channels, index, grey.spec_channels(), index);
            }
            x += 1;
        }
        assert((y + 1) * dx == y * dx + dx) by (nonlinear_arith);
        y += 1;
    }
    assert(y * dx == before.pixel_count()) by (nonlinear_arith)
        requires
            y == dy,
            before.pixel_count() == dx * dy,
    ;
}

/// Where no bucket from `from` up to `stop` is above the source, the search
/// goes on at `stop`.
pub proof fn lemma_position_skips(
    target: Seq<u64>,
    source: Seq<u64>,
    value: int,
    from: int,
    stop: int,
)
    requires
        0 <= from <= stop <= BUCKETS,
        forall|i: int|
            from <= i < stop ==> !spec_exceeds(
                #[trigger] target[i],
                target[BUCKETS - 1],
                source[value],
                source[BUCKETS - 1],
            ),
    ensures
        spec_position(target, source, value, from) == spec_position(target, source, value, stop),
    decreases stop - from,
{
    if from < stop {
        lemma_position_skips(target, source, value, from + 1, stop);
    }
}

/// Whether the intensities in use lie side by side: an intensity in use,
/// with another in use somewhere above it, has the next one in use.
pub open spec fn spec_adjacent(hist: Seq<u64>) -> bool {
    forall|v: int, w: int|
        0 <= v < w < BUCKETS && hist[v] > 0 && #[trigger] hist[w] > 0 ==> #[trigger] hist[v + 1]
            > 0
}

/// With no pixel above `value`, the cumulative counts stay as they are from
/// `value` on.
proof fn lemma_cumulative_flat(hist: Seq<u64>, value: int, upto: int)
    requires
        0 <= value <= upto < BUCKETS,
        forall|w: int| value < w < BUCKETS ==> hist[w] == 0,
    ensures
        spec_cumulative(hist, upto) == spec_cumulative(hist, value),
    decreases upto - value,
{
    if value < upto {
        lemma_cumulative_flat(hist, value, upto - 1);
    }
}

/// Matching a distribution to itself leaves an intensity in use where it
/// is, provided that the intensities in use lie side by side.
pub proof fn lemma_match_to_itself(hist: Seq<u64>, value: u8)
    requires
        hist.len() == BUCKETS,
        spec_cumulative(hist, BUCKETS - 1) <= u64::MAX,
        hist[value as int] > 0,
        spec_adjacent(hist),
    ensures
        spec_matched(spec_cdf(hist), spec_cdf(hist), value) == value,
{
    let cdf = spec_cdf(hist);
    let total = cdf[BUCKETS - 1];
    let v = value as int;
    assert forall|i: int| 0 <= i < BUCKETS implies cdf[i] == spec_cumulative(hist, i) by {
        lemma_cumulative_monotonic(hist, i, BUCKETS - 1);
    }
    lemma_cumulative_monotonic(hist, v - 1, v - 1);
    lemma_cumulative_monotonic(hist, v, BUCKETS - 1);
    assert(total > 0);
    assert forall|i: int| 0 <= i <= v implies !spec_exceeds(
        #[trigger] cdf[i],
        total,
        cdf[v],
        total,
    ) by {
        lemma_cumulative_monotonic(hist, i, v);
        assert(cdf[i] * total <= cdf[v] * total) by (nonlinear_arith)
            requires
                cdf[i] <= cdf[v],
                total >= 0,
        ;
    }
    lemma_position_skips(cdf, cdf, v, 0, v + 1);
    if exists|w: int| v < w < BUCKETS && hist[w] > 0 {
        let w = choose|w: int| v < w < BUCKETS && hist[w] > 0;
        assert(hist[v + 1] > 0);
        assert(spec_exceeds(cdf[v + 1], total, cdf[v], total)) by {
            assert(cdf[v + 1] * total > cdf[v] * total) by (nonlinear_arith)
                requires
                    cdf[v + 1] > cdf[v],
                    total > 0,
            ;
        }
        assert(spec_position(cdf, cdf, v, v + 1) == v + 1);
    } else {
        assert forall|i: int| v + 1 <= i < BUCKETS implies !spec_exceeds(
            #[trigger] cdf[i],
            total,
            cdf[v],
            total,
        ) by {
            lemma_cumulative_flat(hist, v, i);
        }
        lemma_position_skips(cdf, cdf, v, v + 1, BUCKETS as int);
    }
}

/// Matching a buffer to a copy of itself leaves the first channel of every
/// pixel as it is, provided that the intensities in use lie side by side.
pub proof fn lemma_match_leaves_first_channel(
    result: Raster,
    source: Raster,
    channels: nat,
    has_alpha: bool,
)
    requires
        1 <= channels,
        has_alpha ==> 2 <= channels,
        source.well_formed(channels),
        spec_matches(result, source, source, channels, has_alpha),
        spec_adjacent(spec_histogram(source, channels)),
    ensures
        forall|i: int|
            0 <= i < source.pixel_count() ==> #[trigger] result.first_channel(channels, i)
                == source.first_channel(channels, i),
{
    let hist = spec_histogram(source, channels);
    assert(source.pixel_count() <= u64::MAX) by {
        assert(source.width * source.height <= 0xffff_ffff * 0xffff_ffff) by (nonlinear_arith)
            requires
                source.width <= 0xffff_ffff,
                source.height <= 0xffff_ffff,
        ;
    }
    lemma_cumulative_total(source, channels);
    assert forall|i: int| 0 <= i < source.pixel_count() implies #[trigger] result.first_channel(
        channels,
        i,
    ) == source.first_channel(channels, i) by {
        let value = source.first_channel(channels, i);
        lemma_count_occurs(source.samples, channels, source.pixel_count() as nat, i);
        lemma_count_bound(source.samples, channels, source.pixel_count() as nat, value as int);
        lemma_match_to_itself(hist, value);
        let pixel = result.pixel(channels, i);
        assert(pixel == spec_greyscale(channels, has_alpha, value));
        assert((i + 1) * channels == i * channels + channels) by (nonlinear_arith);
        assert(0 <= i * channels && (i + 1) * channels <= source.pixel_count() * channels)
            by (nonlinear_arith)
            requires
                0 <= i < source.pixel_count(),
                0 <= channels,
        ;
        assert(pixel[0] == result.samples[i * channels + 0]);
    }
}

/// An intensity that a pixel has is counted at least once.
proof fn lemma_count_occurs(samples: Seq<u8>, channels: nat, pixels: nat, index: int)
    requires
        0 <= index < pixels,
    ensures
        spec_count(samples, channels, pixels, samples[index * channels] as int) > 0,
    decreases pixels,
{
    if index < pixels - 1 {
        lemma_count_occurs(samples, channels, (pixels - 1) as nat, index);
    }
}

} // verus!
