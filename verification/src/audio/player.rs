//! The playback side of the pipeline: the controls that the listener has,
//! and the render step that the output device calls for every block of
//! output slots.
use vstd::prelude::*;
use crate::channel::{SampleChannel, SampleConsumer, SampleProducer};
use crate::arith::{
    greater, greater_of, lesser, lesser_of, minus, multiply, negated, plus, product, sum,
};
use crate::sample::{clamp_unit, clamped_to_unit, is_in_unit_range, SILENCE, UNITY};

verus! {

/// Capacity of the playback channel: about half a second of stereo samples.
pub const RING_BUFFER_SIZE: usize = 44100;

/// Samples per second and channel.
pub const SAMPLE_RATE: u32 = 44100;

/// Channels of the output.
pub const CHANNELS: u16 = 2;

/// Frames per block of the output device.
pub const BUFFER_SIZE: u32 = 512;

/// The volume a player starts with: the pattern of `0.8`.
pub const INITIAL_VOLUME: u32 = 0x3F4C_CCCD;

/// What one step changes the volume by: the pattern of `0.05`.
pub const VOLUME_STEP: u32 = 0x3D4C_CCCD;

/// What one output slot gets, given what the channel handed out for it:
/// the sample, or silence where the channel had none.
pub open spec fn slot_value(popped: Option<u32>) -> u32 {
    match popped {
        Some(sample) => sample,
        None => SILENCE,
    }
}

/// What one output slot gets, given what the channel handed out for it and
/// the volume: the product of the two.
pub fn slot_sample(popped: Option<u32>, volume: u32) -> (value: u32)
    ensures
        value == product(slot_value(popped), volume),
{
    match popped {
        Some(sample) => multiply(sample, volume),
        None => multiply(SILENCE, volume),
    }
}

/// `value` is what a running slot holds when the channel handed out
/// `popped` for it.
pub open spec fn slot_holds(value: u32, popped: Option<u32>, volume: u32) -> bool {
    value == product(slot_value(popped), volume)
}

/// `value` is what a running slot may hold at the volume `volume`: some
/// sample times the volume, or silence times the volume.
pub open spec fn is_rendered(value: u32, volume: u32) -> bool {
    exists|popped: Option<u32>| #[trigger] slot_holds(value, popped, volume)
}

/// Fills one output slot.
///
/// While paused the slot is silent and the channel is not touched, so that
/// the samples stay where they are and the full channel holds the decoder
/// back. Else the slot gets the next sample of the channel, or silence where
/// the channel has run dry, times the volume: with nothing buffered, the
/// slot is silent unless the producer has delivered a sample meanwhile.
pub fn render_slot(consumer: &mut SampleConsumer, paused: bool, volume: u32) -> (value: u32)
    ensures
        paused ==> value == SILENCE && *final(consumer) == *old(consumer),
        !paused && old(consumer)@.len() > 0 ==> value == product(old(consumer)@[0], volume)
            && final(consumer)@ == old(consumer)@.skip(1),
        !paused ==> exists|popped: Option<u32>|
            {
                &&& #[trigger] slot_holds(value, popped, volume)
                &&& old(consumer)@.len() > 0 ==> popped == Some(old(consumer)@[0])
                &&& popped is None ==> old(consumer)@.len() == 0 && final(consumer)@.len() == 0
            },
        !paused ==> is_rendered(value, volume),
{
    if paused {
        SILENCE
    } else {
        let popped = consumer.try_read_one();
        let value = slot_sample(popped, volume);
        assert(slot_holds(value, popped, volume));
        value
    }
}

/// Fills a block of output slots, first to last.
///
/// While paused every slot is silent and the channel is left as it was.
/// Else the slots get the buffered samples in their order, one each, times
/// the volume; every slot beyond them gets a sample that the producer has
/// delivered meanwhile, or silence, times the volume.
pub fn render(consumer: &mut SampleConsumer, paused: bool, volume: u32, output: &mut [u32])
    ensures
        final(output)@.len() == old(output)@.len(),
        paused ==> *final(consumer) == *old(consumer) && forall|i: int|
            0 <= i < final(output)@.len() ==> final(output)@[i] == SILENCE,
        !paused ==> forall|i: int|
            0 <= i < final(output)@.len() && i < old(consumer)@.len() ==> final(output)@[i]
                == product(old(consumer)@[i], volume),
        !paused ==> forall|i: int|
            0 <= i < final(output)@.len() ==> is_rendered(#[trigger] final(output)@[i], volume),
        !paused && old(output)@.len() <= old(consumer)@.len() ==> final(consumer)@ == old(
            consumer,
        )@.skip(old(output)@.len() as int),
{
    let n = output.len();
    let ghost buffered = consumer@;
    let mut i: usize = 0;
    assert(buffered.skip(0) =~= buffered);
    while i < n
        invariant
            i <= n,
            output@.len() == n,
            buffered == old(consumer)@,
            paused ==> *consumer == *old(consumer),
            paused ==> forall|k: int| 0 <= k < i ==> output@[k] == SILENCE,
            !paused && i <= buffered.len() ==> consumer@ == buffered.skip(i as int),
            !paused ==> forall|k: int|
                0 <= k < i && k < buffered.len() ==> output@[k] == product(buffered[k], volume),
            !paused ==> forall|k: int| 0 <= k < i ==> is_rendered(#[trigger] output@[k], volume),
        decreases n - i,
    {
        let value = render_slot(consumer, paused, volume);
        output[i] = value;
        proof {
            if !paused && i < buffered.len() {
                assert(buffered.skip(i as int).skip(1) =~= buffered.skip(i + 1));
            }
        }
        i = i + 1;
    }
}

/// The volume one step up: the sum of the volume and the step, but one at
/// most.
pub open spec fn stepped_up(volume: u32) -> u32 {
    lesser_of(sum(volume, VOLUME_STEP), UNITY)
}

/// The volume one step down: the volume less the step, but zero at least.
pub open spec fn stepped_down(volume: u32) -> u32 {
    greater_of(sum(volume, negated(VOLUME_STEP)), SILENCE)
}

/// The controls of playback and the mark of the finished session, as the
/// thread that owns them sees them.
pub struct AudioPlayer {
    volume: u32,
    paused: bool,
    finished: bool,
}

impl AudioPlayer {
    #[verifier::type_invariant]
    spec fn well_formed(self) -> bool {
        is_in_unit_range(self.volume)
    }

    /// The volume: always a pattern from zero to one.
    pub closed spec fn spec_volume(&self) -> u32 {
        self.volume
    }

    /// Whether playback is paused.
    pub closed spec fn spec_paused(&self) -> bool {
        self.paused
    }

    /// Whether the session of the current track has finished.
    pub closed spec fn spec_finished(&self) -> bool {
        self.finished
    }

    /// A player at the initial volume, not paused, with no finished
    /// session.
    pub fn new() -> (player: AudioPlayer)
        ensures
            player.spec_volume() == INITIAL_VOLUME,
            !player.spec_paused(),
            !player.spec_finished(),
    {
        AudioPlayer { volume: INITIAL_VOLUME, paused: false, finished: false }
    }

    /// Begins a track: makes a fresh, empty playback channel, so that no
    /// sample of an earlier track is left over, ends a pause, takes back the
    /// mark of the finished session, and returns the two ends of the channel.
    /// The volume stays.
    pub fn init_buffer(&mut self) -> (ends: (SampleProducer, SampleConsumer))
        ensures
            ends.0.pending() == Seq::<u32>::empty(),
            ends.0.spec_capacity() == RING_BUFFER_SIZE,
            ends.1@ == Seq::<u32>::empty(),
            !final(self).spec_paused(),
            !final(self).spec_finished(),
            final(self).spec_volume() == old(self).spec_volume(),
    {
        proof {
            use_type_invariant(&*self);
        }
        self.paused = false;
        self.finished = false;
        SampleChannel::new(RING_BUFFER_SIZE).split()
    }

    /// Takes note that the session of the current track has finished.
    pub fn mark_finished(&mut self)
        ensures
            final(self).spec_finished(),
            final(self).spec_volume() == old(self).spec_volume(),
            final(self).spec_paused() == old(self).spec_paused(),
    {
        proof {
            use_type_invariant(&*self);
        }
        self.finished = true;
    }

    /// Whether the session of the current track has finished: it is marked
    /// when the session's loop has ended or the session could not begin,
    /// and the mark is taken back when the next track begins.
    pub fn is_finished(&self) -> (finished: bool)
        ensures
            finished == self.spec_finished(),
    {
        self.finished
    }

    /// The volume: from zero to one, whatever has been set.
    pub fn volume(&self) -> (vol: u32)
        ensures
            vol == self.spec_volume(),
            is_in_unit_range(vol),
    {
        proof {
            use_type_invariant(self);
        }
        self.volume
    }

    /// Sets the volume to `vol` brought into the range from zero to one.
    pub fn set_volume(&mut self, vol: u32)
        ensures
            final(self).spec_volume() == clamped_to_unit(vol),
            is_in_unit_range(final(self).spec_volume()),
            final(self).spec_paused() == old(self).spec_paused(),
            final(self).spec_finished() == old(self).spec_finished(),
    {
        proof {
            use_type_invariant(&*self);
        }
        self.volume = clamp_unit(vol);
    }

    /// Raises the volume by one step and returns the new volume.
    pub fn volume_up(&mut self) -> (vol: u32)
        ensures
            vol == stepped_up(old(self).spec_volume()),
            final(self).spec_volume() == clamped_to_unit(vol),
            is_in_unit_range(final(self).spec_volume()),
            final(self).spec_paused() == old(self).spec_paused(),
            final(self).spec_finished() == old(self).spec_finished(),
    {
        proof {
            use_type_invariant(&*self);
        }
        let vol = lesser(plus(self.volume, VOLUME_STEP), UNITY);
        self.volume = clamp_unit(vol);
        vol
    }

    /// Lowers the volume by one step and returns the new volume.
    pub fn volume_down(&mut self) -> (vol: u32)
        ensures
            vol == stepped_down(old(self).spec_volume()),
            final(self).spec_volume() == clamped_to_unit(vol),
            is_in_unit_range(final(self).spec_volume()),
            final(self).spec_paused() == old(self).spec_paused(),
            final(self).spec_finished() == old(self).spec_finished(),
    {
        proof {
            use_type_invariant(&*self);
        }
        let vol = greater(minus(self.volume, VOLUME_STEP), SILENCE);
        self.volume = clamp_unit(vol);
        vol
    }

    /// Whether playback is paused.
    pub fn is_paused(&self) -> (paused: bool)
        ensures
            paused == self.spec_paused(),
    {
        self.paused
    }

    /// Whether playback is not paused.
    pub fn is_playing(&self) -> (playing: bool)
        ensures
            playing == !self.spec_paused(),
    {
        !self.paused
    }

    /// Pauses playback, or ends the pause. Returns whether playback is now
    /// paused.
    pub fn toggle_pause(&mut self) -> (now_paused: bool)
        ensures
            now_paused == !old(self).spec_paused(),
            final(self).spec_paused() == now_paused,
            final(self).spec_volume() == old(self).spec_volume(),
            final(self).spec_finished() == old(self).spec_finished(),
    {
        proof {
            use_type_invariant(&*self);
        }
        self.paused = !self.paused;
        self.paused
    }
}

impl Default for AudioPlayer {
    /// A player at the initial volume, not paused.
    fn default() -> (player: AudioPlayer)
        ensures
            player.spec_volume() == INITIAL_VOLUME,
            !player.spec_paused(),
            !player.spec_finished(),
    {
        AudioPlayer::new()
    }
}

} // verus!
