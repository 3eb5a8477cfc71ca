//! Contiguous multiband, multichannel block of audio.
use crate::audio_processing::aec3::aec3_common::BLOCK_SIZE;
use crate::audio_processing::arithmetic::{is_functional, is_total, zero, zero_of, Real};
use vstd::prelude::*;
use vstd::slice::slice_subrange;

verus! {

/// One or more channels of 4 milliseconds of audio, split into one or more
/// frequency bands each sampled at 16 kHz.
///
/// The samples live in a single allocation laid out as `[band][channel][sample]`,
/// so a block is one allocation rather than one per channel per band.
#[derive(Clone, Debug, PartialEq)]
pub struct Block<T: Real> {
    num_bands: usize,
    num_channels: usize,
    data: Vec<T>,
}

/// Where the samples of a channel start.
pub open spec fn channel_start(num_channels: int, band: int, channel: int) -> int {
    (band * num_channels + channel) * BLOCK_SIZE
}

/// Every channel of every band lies within the samples, and two channels do not
/// overlap.
proof fn lemma_channel_start(num_bands: int, num_channels: int, band: int, channel: int)
    requires
        0 <= band < num_bands,
        0 <= channel < num_channels,
    ensures
        0 <= band * num_channels <= band * num_channels + channel < num_bands * num_channels,
        0 <= channel_start(num_channels, band, channel),
        channel_start(num_channels, band, channel) + BLOCK_SIZE <= num_bands * num_channels
            * BLOCK_SIZE,
        channel_start(num_channels, band, 0) + num_channels * BLOCK_SIZE <= num_bands
            * num_channels * BLOCK_SIZE,
{
    assert(0 <= band * num_channels) by (nonlinear_arith)
        requires
            0 <= band,
            0 <= num_channels,
    ;
    assert((band + 1) * num_channels == band * num_channels + num_channels) by (nonlinear_arith);
    assert((band + 1) * num_channels <= num_bands * num_channels) by (nonlinear_arith)
        requires
            band + 1 <= num_bands,
            0 <= num_channels,
    ;
}

proof fn lemma_channels_are_apart(
    num_channels: int,
    band1: int,
    channel1: int,
    band2: int,
    channel2: int,
)
    requires
        0 <= channel1 < num_channels,
        0 <= channel2 < num_channels,
        band1 != band2 || channel1 != channel2,
    ensures
        ({
            let a = channel_start(num_channels, band1, channel1);
            let b = channel_start(num_channels, band2, channel2);
            a + BLOCK_SIZE <= b || b + BLOCK_SIZE <= a
        }),
{
    if band1 < band2 {
        assert((band1 + 1) * num_channels <= band2 * num_channels) by (nonlinear_arith)
            requires
                band1 + 1 <= band2,
                0 <= num_channels,
        ;
        assert((band1 + 1) * num_channels == band1 * num_channels + num_channels)
            by (nonlinear_arith);
    } else if band2 < band1 {
        assert((band2 + 1) * num_channels <= band1 * num_channels) by (nonlinear_arith)
            requires
                band2 + 1 <= band1,
                0 <= num_channels,
        ;
        assert((band2 + 1) * num_channels == band2 * num_channels + num_channels)
            by (nonlinear_arith);
    }
}

/// Whether `after` is `data` with one channel written and the others as they were.
spec fn is_written<T>(
    num_bands: int,
    num_channels: int,
    data: Seq<T>,
    band: int,
    channel: int,
    written: Seq<T>,
    after: Seq<T>,
) -> bool {
    let start = channel_start(num_channels, band, channel);
    &&& after.len() == data.len()
    &&& after.subrange(start, start + BLOCK_SIZE) == written
    &&& forall|b: int, c: int|
        0 <= b < num_bands && 0 <= c < num_channels && (b != band || c != channel)
            ==> #[trigger] after.subrange(
            channel_start(num_channels, b, c),
            channel_start(num_channels, b, c) + BLOCK_SIZE,
        ) == data.subrange(
            channel_start(num_channels, b, c),
            channel_start(num_channels, b, c) + BLOCK_SIZE,
        )
}

/// Writing a channel changes that channel alone.
proof fn lemma_written<T>(
    num_bands: int,
    num_channels: int,
    data: Seq<T>,
    band: int,
    channel: int,
    written: Seq<T>,
)
    requires
        0 <= band < num_bands,
        0 <= channel < num_channels,
        data.len() == num_bands * num_channels * BLOCK_SIZE,
        written.len() == BLOCK_SIZE,
    ensures
        is_written(
            num_bands,
            num_channels,
            data,
            band,
            channel,
            written,
            data.subrange(0, channel_start(num_channels, band, channel)) + (written
                + data.subrange(
                channel_start(num_channels, band, channel) + BLOCK_SIZE,
                data.len() as int,
            )),
        ),
{
    let start = channel_start(num_channels, band, channel);
    lemma_channel_start(num_bands, num_channels, band, channel);
    let after = data.subrange(0, start) + (written + data.subrange(
        start + BLOCK_SIZE,
        data.len() as int,
    ));
    assert(after.subrange(start, start + BLOCK_SIZE) =~= written);
    assert forall|b: int, c: int|
        0 <= b < num_bands && 0 <= c < num_channels && (b != band || c
            != channel) implies #[trigger] after.subrange(
        channel_start(num_channels, b, c),
        channel_start(num_channels, b, c) + BLOCK_SIZE,
    ) == data.subrange(
        channel_start(num_channels, b, c),
        channel_start(num_channels, b, c) + BLOCK_SIZE,
    ) by {
        lemma_channel_start(num_bands, num_channels, b, c);
        lemma_channels_are_apart(num_channels, band, channel, b, c);
        assert(after.subrange(
            channel_start(num_channels, b, c),
            channel_start(num_channels, b, c) + BLOCK_SIZE,
        ) =~= data.subrange(
            channel_start(num_channels, b, c),
            channel_start(num_channels, b, c) + BLOCK_SIZE,
        ));
    }
}

impl<T: Real> Block<T> {
    pub closed spec fn inv(&self) -> bool {
        self.data@.len() == self.num_bands * self.num_channels * BLOCK_SIZE
    }

    pub closed spec fn bands(&self) -> int {
        self.num_bands as int
    }

    pub closed spec fn channels(&self) -> int {
        self.num_channels as int
    }

    /// The samples of a channel of a band.
    pub closed spec fn samples(&self, band: int, channel: int) -> Seq<T> {
        self.data@.subrange(
            channel_start(self.num_channels as int, band, channel),
            channel_start(self.num_channels as int, band, channel) + BLOCK_SIZE,
        )
    }

    pub open spec fn has(&self, band: int, channel: int) -> bool {
        0 <= band < self.bands() && 0 <= channel < self.channels()
    }

    /// Whether all samples are the same.
    pub open spec fn is_filled_with(&self, value: T) -> bool {
        forall|band: int, channel: int|
            self.has(band, channel) ==> #[trigger] self.samples(band, channel) == Seq::new(
                BLOCK_SIZE as nat,
                |i: int| value,
            )
    }

    pub fn new(num_bands: usize, num_channels: usize) -> (block: Self)
        requires
            is_total::<T>(),
            num_bands * num_channels * BLOCK_SIZE <= usize::MAX,
        ensures
            block.inv(),
            block.bands() == num_bands,
            block.channels() == num_channels,
            is_functional::<T>() ==> block.is_filled_with(zero_of()),
    {
        Self::with_value(num_bands, num_channels, zero())
    }

    pub fn with_value(num_bands: usize, num_channels: usize, value: T) -> (block: Self)
        requires
            num_bands * num_channels * BLOCK_SIZE <= usize::MAX,
        ensures
            block.inv(),
            block.bands() == num_bands,
            block.channels() == num_channels,
            block.is_filled_with(value),
    {
        assert(0 <= num_bands * num_channels) by (nonlinear_arith)
            requires
                0 <= num_bands,
                0 <= num_channels,
        ;
        let len: usize = num_bands * num_channels * BLOCK_SIZE;
        let mut data: Vec<T> = Vec::new();
        let mut i: usize = 0;
        while i < len
            invariant
                i <= len,
                data@.len() == i,
                forall|k: int| 0 <= k < i ==> data@[k] == value,
            decreases len - i,
        {
            data.push(value);
            i = i + 1;
        }
        let block = Block { num_bands, num_channels, data };
        proof {
            block.lemma_filled(value);
        }
        block
    }

    proof fn lemma_filled(&self, value: T)
        requires
            self.inv(),
            forall|i: int| 0 <= i < self.data@.len() ==> self.data@[i] == value,
        ensures
            self.is_filled_with(value),
    {
        assert forall|band: int, channel: int| self.has(band, channel) implies #[trigger] self.samples(
            band,
            channel,
        ) == Seq::new(BLOCK_SIZE as nat, |i: int| value) by {
            lemma_channel_start(
                self.num_bands as int,
                self.num_channels as int,
                band,
                channel,
            );
            assert(self.samples(band, channel) =~= Seq::new(BLOCK_SIZE as nat, |i: int| value));
        }
    }

    pub fn num_bands(&self) -> (num_bands: usize)
        ensures
            num_bands == self.bands(),
    {
        self.num_bands
    }

    pub fn num_channels(&self) -> (num_channels: usize)
        ensures
            num_channels == self.channels(),
    {
        self.num_channels
    }

    /// Changes the channel count and zeroes every sample.
    pub fn set_num_channels(&mut self, num_channels: usize)
        requires
            is_total::<T>(),
            old(self).inv(),
            old(self).bands() * num_channels * BLOCK_SIZE <= usize::MAX,
        ensures
            final(self).inv(),
            final(self).bands() == old(self).bands(),
            final(self).channels() == num_channels,
            is_functional::<T>() ==> final(self).is_filled_with(zero_of()),
    {
        let block = Self::new(self.num_bands, num_channels);
        *self = block;
    }

    /// The samples of a channel of a band.
    pub fn view(&self, band: usize, channel: usize) -> (samples: &[T])
        requires
            self.inv(),
            self.has(band as int, channel as int),
        ensures
            samples@ == self.samples(band as int, channel as int),
            samples@.len() == BLOCK_SIZE,
    {
        let start: usize = self.index(band, channel);
        slice_subrange(self.data.as_slice(), start, start + BLOCK_SIZE)
    }

    /// The samples of a channel of a band, to be written. The other channels stay as
    /// they are.
    pub fn view_mut(&mut self, band: usize, channel: usize) -> (samples: &mut [T])
        requires
            old(self).inv(),
            old(self).has(band as int, channel as int),
        ensures
            samples@ == old(self).samples(band as int, channel as int),
            samples@.len() == BLOCK_SIZE,
            final(samples)@.len() == BLOCK_SIZE ==> {
                &&& final(self).inv()
                &&& final(self).bands() == old(self).bands()
                &&& final(self).channels() == old(self).channels()
                &&& final(self).samples(band as int, channel as int) == final(samples)@
                &&& forall|b: int, c: int|
                    old(self).has(b, c) && (b != band || c != channel)
                        ==> #[trigger] final(self).samples(b, c) == old(self).samples(b, c)
            },
    {
        let start: usize = self.index(band, channel);
        let (before, rest) = self.data.as_mut_slice().split_at_mut(start);
        let (samples, after) = rest.split_at_mut(BLOCK_SIZE);
        proof {
            let data = old(self).data@;
            let num_bands = old(self).num_bands as int;
            let num_channels = old(self).num_channels as int;
            let head = data.subrange(0, start as int);
            let tail = data.subrange(start + BLOCK_SIZE, data.len() as int);
            assert forall|written: Seq<T>|
                #![trigger head + (written + tail)]
                written.len() == BLOCK_SIZE implies is_written(
                num_bands,
                num_channels,
                data,
                band as int,
                channel as int,
                written,
                head + (written + tail),
            ) by {
                lemma_written(
                    num_bands,
                    num_channels,
                    data,
                    band as int,
                    channel as int,
                    written,
                );
            }
            assert(before@ =~= head);
            assert(after@ =~= tail);
        }
        samples
    }

    /// All channels of one band, as a contiguous slice of `num_channels`
    /// consecutive `BLOCK_SIZE` runs.
    pub fn band(&self, band: usize) -> (samples: &[T])
        requires
            self.inv(),
            0 < self.channels(),
            band < self.bands(),
        ensures
            samples@.len() == self.channels() * BLOCK_SIZE,
            forall|channel: int|
                0 <= channel < self.channels() ==> samples@.subrange(
                    channel * BLOCK_SIZE,
                    (channel + 1) * BLOCK_SIZE,
                ) == #[trigger] self.samples(band as int, channel),
    {
        let start: usize = self.index(band, 0);
        proof {
            lemma_channel_start(
                self.num_bands as int,
                self.num_channels as int,
                band as int,
                0,
            );
        }
        let samples = slice_subrange(
            self.data.as_slice(),
            start,
            start + self.num_channels * BLOCK_SIZE,
        );
        proof {
            assert forall|channel: int| 0 <= channel < self.channels() implies samples@.subrange(
                channel * BLOCK_SIZE,
                (channel + 1) * BLOCK_SIZE,
            ) == #[trigger] self.samples(band as int, channel) by {
                lemma_channel_start(
                    self.num_bands as int,
                    self.num_channels as int,
                    band as int,
                    channel,
                );
                assert(samples@.subrange(channel * BLOCK_SIZE, (channel + 1) * BLOCK_SIZE)
                    =~= self.samples(band as int, channel));
            }
        }
        samples
    }

    /// The channels of one band.
    pub fn band_channels(&self, band: usize) -> (channels: Vec<&[T]>)
        requires
            self.inv(),
            band < self.bands(),
        ensures
            channels@.len() == self.channels(),
            forall|channel: int|
                0 <= channel < self.channels() ==> (#[trigger] channels@[channel])@
                    == self.samples(band as int, channel),
    {
        let mut channels: Vec<&[T]> = Vec::new();
        let mut channel: usize = 0;
        while channel < self.num_channels
            invariant
                self.inv(),
                band < self.bands(),
                channel <= self.num_channels,
                channels@.len() == channel,
                forall|c: int|
                    0 <= c < channel ==> (#[trigger] channels@[c])@ == self.samples(
                        band as int,
                        c,
                    ),
            decreases self.num_channels - channel,
        {
            channels.push(self.view(band, channel));
            channel = channel + 1;
        }
        channels
    }

    pub fn fill(&mut self, value: T)
        requires
            old(self).inv(),
        ensures
            final(self).inv(),
            final(self).bands() == old(self).bands(),
            final(self).channels() == old(self).channels(),
            final(self).is_filled_with(value),
    {
        let mut i: usize = 0;
        while i < self.data.len()
            invariant
                i <= self.data@.len() == old(self).data@.len(),
                self.num_bands == old(self).num_bands,
                self.num_channels == old(self).num_channels,
                forall|k: int| 0 <= k < i ==> self.data@[k] == value,
            decreases self.data@.len() - i,
        {
            self.data[i] = value;
            i = i + 1;
        }
        proof {
            self.lemma_filled(value);
        }
    }

    pub fn swap(&mut self, other: &mut Block<T>)
        ensures
            *final(self) == *old(other),
            *final(other) == *old(self),
    {
        std::mem::swap(self, other);
    }

    /// Builds a block from `[band][channel][sample]` nested vectors.
    pub fn from_nested(nested: &[Vec<Vec<T>>]) -> (block: Self)
        requires
            is_total::<T>(),
            is_nested_block(nested@),
            nested@.len() * nested@[0]@.len() * BLOCK_SIZE <= usize::MAX,
        ensures
            block.inv(),
            block.bands() == nested@.len(),
            block.channels() == nested@[0]@.len(),
            forall|band: int, channel: int|
                block.has(band, channel) ==> #[trigger] block.samples(band, channel)
                    == nested@[band]@[channel]@,
    {
        let num_bands: usize = nested.len();
        let num_channels: usize = nested[0].len();
        let mut block = Self::new(num_bands, num_channels);
        let mut band: usize = 0;
        while band < num_bands
            invariant
                is_nested_block(nested@),
                num_bands == nested@.len(),
                num_channels == nested@[0]@.len(),
                block.inv(),
                block.bands() == num_bands,
                block.channels() == num_channels,
                band <= num_bands,
                forall|b: int, c: int|
                    0 <= b < band && 0 <= c < num_channels ==> #[trigger] block.samples(b, c)
                        == nested@[b]@[c]@,
            decreases num_bands - band,
        {
            let mut channel: usize = 0;
            while channel < num_channels
                invariant
                    is_nested_block(nested@),
                    num_bands == nested@.len(),
                    num_channels == nested@[0]@.len(),
                    block.inv(),
                    block.bands() == num_bands,
                    block.channels() == num_channels,
                    band < num_bands,
                    channel <= num_channels,
                    forall|b: int, c: int|
                        (0 <= b < band && 0 <= c < num_channels) || (b == band && 0 <= c < channel)
                            ==> #[trigger] block.samples(b, c) == nested@[b]@[c]@,
                decreases num_channels - channel,
            {
                assert(nested@[band as int]@[channel as int]@.len() == BLOCK_SIZE);
                copy(nested[band][channel].as_slice(), block.view_mut(band, channel));
                channel = channel + 1;
            }
            band = band + 1;
        }
        block
    }

    fn index(&self, band: usize, channel: usize) -> (start: usize)
        requires
            self.inv(),
            self.has(band as int, channel as int),
        ensures
            start == channel_start(self.num_channels as int, band as int, channel as int),
            start + BLOCK_SIZE <= self.data@.len(),
            self.data@.len() <= usize::MAX,
    {
        proof {
            lemma_channel_start(
                self.num_bands as int,
                self.num_channels as int,
                band as int,
                channel as int,
            );
            assert(self.data@.len() <= usize::MAX) by {
                assert(self.data.len() <= usize::MAX);
            }
        }
        (band * self.num_channels + channel) * BLOCK_SIZE
    }
}

/// Whether there are bands of as many channels, each of as many samples as a block has.
pub open spec fn is_nested_block<T>(nested: Seq<Vec<Vec<T>>>) -> bool {
    &&& nested.len() > 0
    &&& forall|band: int|
        0 <= band < nested.len() ==> (#[trigger] nested[band])@.len() == nested[0]@.len()
    &&& forall|band: int, channel: int|
        0 <= band < nested.len() && 0 <= channel < nested[0]@.len() ==> (
        #[trigger] nested[band]@[channel])@.len() == BLOCK_SIZE
}

fn copy<T: Real>(source: &[T], target: &mut [T])
    requires
        source@.len() == old(target)@.len(),
    ensures
        final(target)@ == source@,
{
    let mut i: usize = 0;
    while i < source.len()
        invariant
            i <= source@.len() == target@.len(),
            forall|k: int| 0 <= k < i ==> target@[k] == source@[k],
        decreases source@.len() - i,
    {
        target[i] = source[i];
        i = i + 1;
    }
    assert(target@ =~= source@);
}

} // verus!
