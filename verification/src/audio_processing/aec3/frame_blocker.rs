//! Splitting of sub-frames into blocks.
use crate::audio_processing::aec3::aec3_common::{BLOCK_SIZE, SUB_FRAME_LENGTH};
use crate::audio_processing::aec3::block::Block;
use crate::audio_processing::arithmetic::Real;
use vstd::prelude::*;

verus! {

/// By how many samples a sub-frame is longer than a block.
pub const SURPLUS: usize = 16;

/// Converts multiband subframes consisting of 2x80 samples into 64-sample blocks.
pub struct FrameBlocker<T: Real> {
    num_bands: usize,
    num_channels: usize,
    /// The samples that no block has yet, by channel and band.
    buffer: Vec<Vec<Vec<T>>>,
}

/// A sub-frame with the given numbers of bands and channels.
pub open spec fn is_sub_frame<T>(
    sub_frame: Seq<Vec<Vec<T>>>,
    num_bands: int,
    num_channels: int,
) -> bool {
    &&& sub_frame.len() == num_bands
    &&& forall|band: int|
        0 <= band < num_bands ==> (#[trigger] sub_frame[band])@.len() == num_channels
    &&& forall|band: int, channel: int|
        0 <= band < num_bands && 0 <= channel < num_channels ==> (
        #[trigger] sub_frame[band]@[channel])@.len() == SUB_FRAME_LENGTH
}

impl<T: Real> FrameBlocker<T> {
    pub closed spec fn inv(&self) -> bool {
        &&& self.num_bands > 0
        &&& self.num_channels > 0
        &&& self.buffer@.len() == self.num_bands
        &&& forall|band: int|
            0 <= band < self.num_bands ==> (#[trigger] self.buffer@[band])@.len()
                == self.num_channels
        &&& forall|band: int, channel: int|
            0 <= band < self.num_bands && 0 <= channel < self.num_channels ==> (
            #[trigger] self.buffer@[band]@[channel])@.len() == self.buffer@[0]@[0]@.len()
        &&& self.buffer@[0]@[0]@.len() <= BLOCK_SIZE
    }

    pub closed spec fn bands(&self) -> int {
        self.num_bands as int
    }

    pub closed spec fn channels(&self) -> int {
        self.num_channels as int
    }

    /// The buffered samples of a channel of a band.
    pub closed spec fn buffered(&self, band: int, channel: int) -> Seq<T> {
        self.buffer@[band]@[channel]@
    }

    /// How many samples of each channel are buffered.
    pub closed spec fn num_buffered(&self) -> nat {
        self.buffer@[0]@[0]@.len()
    }

    pub open spec fn has(&self, band: int, channel: int) -> bool {
        0 <= band < self.bands() && 0 <= channel < self.channels()
    }

    /// As many samples are buffered of each channel.
    pub proof fn law_equally_buffered(&self, band: int, channel: int)
        requires
            self.inv(),
            self.has(band, channel),
        ensures
            self.buffered(band, channel).len() == self.num_buffered(),
            self.num_buffered() <= BLOCK_SIZE,
    {
        assert(self.buffer@[band]@[channel]@.len() == self.buffer@[0]@[0]@.len());
    }

    pub fn new(num_bands: usize, num_channels: usize) -> (blocker: Self)
        requires
            num_bands > 0,
            num_channels > 0,
        ensures
            blocker.inv(),
            blocker.bands() == num_bands,
            blocker.channels() == num_channels,
            blocker.num_buffered() == 0,
    {
        let mut buffer: Vec<Vec<Vec<T>>> = Vec::new();
        let mut band: usize = 0;
        while band < num_bands
            invariant
                band <= num_bands,
                buffer@.len() == band,
                forall|b: int| 0 <= b < band ==> (#[trigger] buffer@[b])@.len() == num_channels,
                forall|b: int, c: int|
                    0 <= b < band && 0 <= c < num_channels ==> (#[trigger] buffer@[b]@[c])@.len()
                        == 0,
            decreases num_bands - band,
        {
            let mut channels: Vec<Vec<T>> = Vec::new();
            let mut channel: usize = 0;
            while channel < num_channels
                invariant
                    channel <= num_channels,
                    channels@.len() == channel,
                    forall|c: int| 0 <= c < channel ==> (#[trigger] channels@[c])@.len() == 0,
                decreases num_channels - channel,
            {
                channels.push(Vec::new());
                channel = channel + 1;
            }
            buffer.push(channels);
            band = band + 1;
        }
        FrameBlocker { num_bands, num_channels, buffer }
    }

    /// Whether a block fits the blocker.
    pub open spec fn fits(&self, block: &Block<T>) -> bool {
        &&& block.inv()
        &&& block.bands() == self.bands()
        &&& block.channels() == self.channels()
    }

    /// Inserts an 80-sample subframe and extracts the corresponding 64-sample block.
    pub fn insert_sub_frame_and_extract_block(
        &mut self,
        sub_frame: &[Vec<Vec<T>>],
        block: &mut Block<T>,
    )
        requires
            old(self).inv(),
            old(self).num_buffered() <= BLOCK_SIZE - SURPLUS,
            is_sub_frame(sub_frame@, old(self).bands(), old(self).channels()),
            old(self).fits(&*old(block)),
        ensures
            final(self).inv(),
            final(self).bands() == old(self).bands(),
            final(self).channels() == old(self).channels(),
            final(self).fits(&*final(block)),
            final(self).num_buffered() == old(self).num_buffered() + SURPLUS,
            forall|band: int, channel: int|
                old(self).has(band, channel) ==> #[trigger] final(block).samples(band, channel)
                    == block_of(old(self).buffered(band, channel), sub_frame@[band]@[channel]@),
            forall|band: int, channel: int|
                old(self).has(band, channel) ==> #[trigger] final(self).buffered(band, channel)
                    == rest_of(old(self).buffered(band, channel), sub_frame@[band]@[channel]@),
    {
        let ghost n = self.num_buffered();
        let mut band: usize = 0;
        while band < self.num_bands
            invariant
                old(self).inv(),
                n == old(self).num_buffered(),
                n <= BLOCK_SIZE - SURPLUS,
                is_sub_frame(sub_frame@, old(self).bands(), old(self).channels()),
                self.num_bands == old(self).num_bands,
                self.num_channels == old(self).num_channels,
                self.buffer@.len() == self.num_bands,
                old(self).fits(&*block),
                band <= self.num_bands,
                forall|b: int|
                    0 <= b < self.num_bands ==> (#[trigger] self.buffer@[b])@.len()
                        == self.num_channels,
                forall|b: int|
                    band <= b < self.num_bands ==> self.buffer@[b] == old(self).buffer@[b],
                forall|b: int, c: int|
                    0 <= b < band && 0 <= c < self.num_channels ==> #[trigger] block.samples(b, c)
                        == (old(self).buffered(b, c) + sub_frame@[b]@[c]@).subrange(
                        0,
                        BLOCK_SIZE as int,
                    ),
                forall|b: int, c: int|
                    0 <= b < band && 0 <= c < self.num_channels
                        ==> #[trigger] self.buffer@[b]@[c]@ == (old(self).buffered(b, c)
                        + sub_frame@[b]@[c]@).subrange(BLOCK_SIZE as int, n + SUB_FRAME_LENGTH),
            decreases self.num_bands - band,
        {
            let ghost before = self.buffer@[band as int]@;
            let num_channels: usize = self.num_channels;
            let mut channel: usize = 0;
            while channel < num_channels
                invariant
                    old(self).inv(),
                    n == old(self).num_buffered(),
                    n <= BLOCK_SIZE - SURPLUS,
                    is_sub_frame(sub_frame@, old(self).bands(), old(self).channels()),
                    num_channels == old(self).num_channels,
                    self.num_bands == old(self).num_bands,
                    self.num_channels == old(self).num_channels,
                    self.buffer@.len() == self.num_bands,
                    old(self).fits(&*block),
                    band < self.num_bands,
                    channel <= num_channels,
                    before == old(self).buffer@[band as int]@,
                    forall|b: int|
                        0 <= b < self.num_bands ==> (#[trigger] self.buffer@[b])@.len()
                            == self.num_channels,
                    forall|b: int|
                        band < b < self.num_bands ==> self.buffer@[b] == old(self).buffer@[b],
                    forall|c: int|
                        channel <= c < num_channels ==> #[trigger] self.buffer@[band as int]@[c]
                            == before[c],
                    forall|b: int, c: int|
                        (0 <= b < band && 0 <= c < num_channels) || (b == band && 0 <= c < channel)
                            ==> #[trigger] block.samples(b, c) == (old(self).buffered(b, c)
                            + sub_frame@[b]@[c]@).subrange(0, BLOCK_SIZE as int),
                    forall|b: int, c: int|
                        (0 <= b < band && 0 <= c < num_channels) || (b == band && 0 <= c < channel)
                            ==> #[trigger] self.buffer@[b]@[c]@ == (old(self).buffered(b, c)
                            + sub_frame@[b]@[c]@).subrange(BLOCK_SIZE as int, n + SUB_FRAME_LENGTH),
                decreases num_channels - channel,
            {
                proof {
                    old(self).law_equally_buffered(band as int, channel as int);
                    assert(before[channel as int]@ == old(self).buffered(
                        band as int,
                        channel as int,
                    ));
                    assert(sub_frame@[band as int]@[channel as int]@.len() == SUB_FRAME_LENGTH);
                }
                let rest = split(
                    self.buffer[band][channel].as_slice(),
                    sub_frame[band][channel].as_slice(),
                    block.view_mut(band, channel),
                );
                let row = &mut self.buffer[band];
                row[channel] = rest;
                channel = channel + 1;
            }
            band = band + 1;
        }
    }

    pub fn is_block_available(&self) -> (available: bool)
        requires
            self.inv(),
        ensures
            available == (self.num_buffered() == BLOCK_SIZE),
    {
        self.buffer[0][0].len() == BLOCK_SIZE
    }

    /// Extracts the block that the buffered samples make up.
    pub fn extract_block(&mut self, block: &mut Block<T>)
        requires
            old(self).inv(),
            old(self).num_buffered() == BLOCK_SIZE,
            old(self).fits(&*old(block)),
        ensures
            final(self).inv(),
            final(self).bands() == old(self).bands(),
            final(self).channels() == old(self).channels(),
            final(self).fits(&*final(block)),
            final(self).num_buffered() == 0,
            forall|band: int, channel: int|
                old(self).has(band, channel) ==> #[trigger] final(block).samples(band, channel)
                    == old(self).buffered(band, channel),
    {
        let mut band: usize = 0;
        while band < self.num_bands
            invariant
                old(self).inv(),
                old(self).num_buffered() == BLOCK_SIZE,
                *self == *old(self),
                old(self).fits(&*block),
                band <= self.num_bands,
                forall|b: int, c: int|
                    0 <= b < band && 0 <= c < self.num_channels ==> #[trigger] block.samples(b, c)
                        == old(self).buffered(b, c),
            decreases self.num_bands - band,
        {
            let mut channel: usize = 0;
            while channel < self.num_channels
                invariant
                    old(self).inv(),
                    old(self).num_buffered() == BLOCK_SIZE,
                    *self == *old(self),
                    old(self).fits(&*block),
                    band < self.num_bands,
                    channel <= self.num_channels,
                    forall|b: int, c: int|
                        (0 <= b < band && 0 <= c < self.num_channels) || (b == band && 0 <= c
                            < channel) ==> #[trigger] block.samples(b, c) == old(self).buffered(
                            b,
                            c,
                        ),
                decreases self.num_channels - channel,
            {
                proof {
                    old(self).law_equally_buffered(band as int, channel as int);
                }
                let rest = split(
                    self.buffer[band][channel].as_slice(),
                    &[],
                    block.view_mut(band, channel),
                );
                channel = channel + 1;
            }
            band = band + 1;
        }
        let blocker = FrameBlocker::new(self.num_bands, self.num_channels);
        *self = blocker;
    }
}

/// Fills a block with the buffered and then the new samples, and returns those that
/// are left over.
fn split<T: Real>(buffered: &[T], samples: &[T], view: &mut [T]) -> (rest: Vec<T>)
    requires
        buffered@.len() <= old(view)@.len() <= buffered@.len() + samples@.len(),
    ensures
        final(view)@.len() == old(view)@.len(),
        final(view)@ == (buffered@ + samples@).subrange(0, old(view)@.len() as int),
        rest@ == (buffered@ + samples@).subrange(
            old(view)@.len() as int,
            (buffered@.len() + samples@.len()) as int,
        ),
{
    let ghost all = buffered@ + samples@;
    let size: usize = view.len();
    let mut i: usize = 0;
    while i < size
        invariant
            size == view@.len(),
            i <= size,
            all == buffered@ + samples@,
            buffered@.len() <= size <= buffered@.len() + samples@.len(),
            forall|k: int| 0 <= k < i ==> view@[k] == all[k],
        decreases size - i,
    {
        if i < buffered.len() {
            view[i] = buffered[i];
        } else {
            view[i] = samples[i - buffered.len()];
        }
        i = i + 1;
    }
    assert(view@ =~= all.subrange(0, size as int));
    let mut rest: Vec<T> = Vec::new();
    let mut k: usize = size - buffered.len();
    while k < samples.len()
        invariant
            all == buffered@ + samples@,
            buffered@.len() <= size,
            size - buffered@.len() <= k <= samples@.len(),
            rest@.len() == k - (size - buffered@.len()),
            forall|j: int| 0 <= j < rest@.len() ==> rest@[j] == all[size + j],
        decreases samples@.len() - k,
    {
        rest.push(samples[k]);
        k = k + 1;
    }
    assert(rest@ =~= all.subrange(size as int, (buffered@.len() + samples@.len()) as int));
    rest
}

/// The block that a sub-frame gives: what was buffered, and the start of the sub-frame.
pub open spec fn block_of<T>(buffered: Seq<T>, sub_frame: Seq<T>) -> Seq<T> {
    (buffered + sub_frame).subrange(0, BLOCK_SIZE as int)
}

/// What is buffered after a sub-frame: what the block left over.
pub open spec fn rest_of<T>(buffered: Seq<T>, sub_frame: Seq<T>) -> Seq<T> {
    (buffered + sub_frame).subrange(
        BLOCK_SIZE as int,
        (buffered.len() + sub_frame.len()) as int,
    )
}

/// No sample is lost, repeated or moved: the block and what is buffered after it are
/// what was buffered before and the sub-frame.
pub proof fn law_samples_are_conserved<T>(buffered: Seq<T>, sub_frame: Seq<T>)
    requires
        buffered.len() <= BLOCK_SIZE - SURPLUS,
        sub_frame.len() == SUB_FRAME_LENGTH,
    ensures
        block_of(buffered, sub_frame) + rest_of(buffered, sub_frame) == buffered + sub_frame,
{
    assert(block_of(buffered, sub_frame) + rest_of(buffered, sub_frame) =~= buffered + sub_frame);
}

/// The blocks of a channel, one after the other, and what is buffered, after sub-frames
/// that were each followed by the extraction of all blocks.
pub open spec fn blocks_and_buffered<T>(sub_frames: Seq<Seq<T>>) -> (Seq<T>, Seq<T>)
    decreases sub_frames.len(),
{
    if sub_frames.len() == 0 {
        (Seq::empty(), Seq::empty())
    } else {
        let (blocks, buffered) = blocks_and_buffered(sub_frames.drop_last());
        let block = block_of(buffered, sub_frames.last());
        let rest = rest_of(buffered, sub_frames.last());
        if rest.len() == BLOCK_SIZE {
            (blocks + block + rest, Seq::empty())
        } else {
            (blocks + block, rest)
        }
    }
}

/// The blocks, one after the other, are the start of the stream of the sub-frames, and
/// what they lack is buffered.
pub proof fn law_blocks_are_the_stream<T>(sub_frames: Seq<Seq<T>>)
    requires
        forall|i: int|
            0 <= i < sub_frames.len() ==> (#[trigger] sub_frames[i]).len() == SUB_FRAME_LENGTH,
    ensures
        blocks_and_buffered(sub_frames).0 + blocks_and_buffered(sub_frames).1
            == sub_frames.flatten(),
        blocks_and_buffered(sub_frames).0.is_prefix_of(sub_frames.flatten()),
        blocks_and_buffered(sub_frames).1.len() == buffered_after(sub_frames.len()),
    decreases sub_frames.len(),
{
    let (blocks, buffered) = blocks_and_buffered(sub_frames);
    law_every_fourth_sub_frame_gives_a_block(sub_frames.len());
    if sub_frames.len() == 0 {
        assert(blocks + buffered =~= sub_frames.flatten());
    } else {
        let before = sub_frames.drop_last();
        let last = sub_frames.last();
        let (blocks_before, buffered_before) = blocks_and_buffered(before);
        assert(sub_frames[sub_frames.len() - 1] == last);
        assert forall|i: int| 0 <= i < before.len() implies (#[trigger] before[i]).len()
            == SUB_FRAME_LENGTH by {
            assert(sub_frames[i].len() == SUB_FRAME_LENGTH);
        }
        law_blocks_are_the_stream(before);
        law_every_fourth_sub_frame_gives_a_block(before.len());
        law_samples_are_conserved(buffered_before, last);
        assert(sub_frames =~= before.push(last));
        before.lemma_flatten_push(last);
        assert(blocks + buffered =~= blocks_before + (block_of(buffered_before, last) + rest_of(
            buffered_before,
            last,
        )));
        assert(blocks + buffered =~= blocks_before + buffered_before + last);
    }
    assert(blocks =~= sub_frames.flatten().take(blocks.len() as int));
}

/// How many samples are buffered after a number of sub-frames, each followed by the
/// extraction of all blocks.
pub open spec fn buffered_after(sub_frames: nat) -> nat
    decreases sub_frames,
{
    if sub_frames == 0 {
        0
    } else {
        let buffered = buffered_after((sub_frames - 1) as nat) + SURPLUS;
        if buffered == BLOCK_SIZE {
            0
        } else {
            buffered as nat
        }
    }
}

/// If a block is extracted whenever one is available, there is always room for the
/// next sub-frame, and a block becomes available with every fourth one: five blocks
/// come out for four sub-frames.
pub proof fn law_every_fourth_sub_frame_gives_a_block(sub_frames: nat)
    ensures
        buffered_after(sub_frames) == SURPLUS * (sub_frames % 4),
        buffered_after(sub_frames) <= BLOCK_SIZE - SURPLUS,
    decreases sub_frames,
{
    if sub_frames > 0 {
        law_every_fourth_sub_frame_gives_a_block((sub_frames - 1) as nat);
    }
}

} // verus!
