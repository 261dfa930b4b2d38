//! The decode-and-feed side of the pipeline: decoded audio is brought to
//! interleaved stereo samples and pushed into the playback channel with
//! backoff, and into the analysis channel as far as it has room.
use vstd::prelude::*;
use vstd::arithmetic::power2::pow2;
use crate::channel::{producer_write, SampleProducer};
use crate::sample::{
    abs, denotes, from_i16, from_i32, from_u8, lemma_denotes_unique, rounded_to_24_bits,
};

verus! {

/// A sample encoding that the decoder may deliver.
pub trait Pcm: Copy {
    /// `bits` is the sample that this value stands for.
    spec fn converts_to(self, bits: u32) -> bool;

    /// The sample that this value stands for.
    fn to_sample(self) -> (bits: u32)
        ensures
            self.converts_to(bits),
    ;

    /// A value stands for one sample only.
    proof fn lemma_converts_unique(self, a: u32, b: u32)
        requires
            self.converts_to(a),
            self.converts_to(b),
        ensures
            a == b,
    ;
}

/// 32-bit float samples are taken as they are.
impl Pcm for u32 {
    open spec fn converts_to(self, bits: u32) -> bool {
        bits == self
    }

    fn to_sample(self) -> (bits: u32) {
        self
    }

    proof fn lemma_converts_unique(self, a: u32, b: u32) {
    }
}

/// 16-bit signed samples are divided by 32768.
impl Pcm for i16 {
    open spec fn converts_to(self, bits: u32) -> bool {
        denotes(bits, self < 0, abs(self as int) * pow2(134))
    }

    fn to_sample(self) -> (bits: u32) {
        from_i16(self)
    }

    proof fn lemma_converts_unique(self, a: u32, b: u32) {
        lemma_denotes_unique(a, b, self < 0, abs(self as int) * pow2(134));
    }
}

/// 32-bit signed samples are divided by 2^31, rounded to the nearest sample.
impl Pcm for i32 {
    open spec fn converts_to(self, bits: u32) -> bool {
        denotes(bits, self < 0, rounded_to_24_bits(abs(self as int)) * pow2(118))
    }

    fn to_sample(self) -> (bits: u32) {
        from_i32(self)
    }

    proof fn lemma_converts_unique(self, a: u32, b: u32) {
        lemma_denotes_unique(a, b, self < 0, rounded_to_24_bits(abs(self as int)) * pow2(118));
    }
}

/// 8-bit unsigned samples are moved down by 128 and divided by 128.
impl Pcm for u8 {
    open spec fn converts_to(self, bits: u32) -> bool {
        denotes(bits, self < 128, abs(self - 128) * pow2(142))
    }

    fn to_sample(self) -> (bits: u32) {
        from_u8(self)
    }

    proof fn lemma_converts_unique(self, a: u32, b: u32) {
        lemma_denotes_unique(a, b, self < 128, abs(self - 128) * pow2(142));
    }
}

/// The number of frames that the planes give rise to: none without a
/// channel, else as many as the channels that are used have in common.
pub open spec fn stereo_frames<T>(planes: Seq<Vec<T>>) -> nat {
    if planes.len() == 0 {
        0
    } else if planes.len() == 1 || planes[0]@.len() <= planes[1]@.len() {
        planes[0]@.len()
    } else {
        planes[1]@.len()
    }
}

/// The plane that feeds the output slot `slot`: the first channel feeds the
/// left slots; the second feeds the right slots, or the first again where it
/// is the only one. Channels beyond the second feed nothing.
pub open spec fn source_plane<T>(planes: Seq<Vec<T>>, slot: int) -> Seq<T> {
    if slot % 2 == 0 || planes.len() == 1 {
        planes[0]@
    } else {
        planes[1]@
    }
}

/// `out` is the interleaved stereo rendition of `planes`.
pub open spec fn is_stereo_of<T: Pcm>(out: Seq<u32>, planes: Seq<Vec<T>>) -> bool {
    &&& out.len() == 2 * stereo_frames(planes)
    &&& forall|slot: int|
        0 <= slot < out.len() ==> source_plane(planes, slot)[slot / 2].converts_to(
            #[trigger] out[slot],
        )
}

/// Interleaves the first two channels of `planes`, or the only channel with
/// itself, converting each value to a sample.
pub fn interleave_stereo<T: Pcm>(planes: &Vec<Vec<T>>) -> (out: Vec<u32>)
    ensures
        is_stereo_of(out@, planes@),
{
    let mut out: Vec<u32> = Vec::new();
    if planes.len() == 0 {
        return out;
    }
    let mono = planes.len() == 1;
    let frames: usize = if mono || planes[0].len() <= planes[1].len() {
        planes[0].len()
    } else {
        planes[1].len()
    };
    let mut frame: usize = 0;
    while frame < frames
        invariant
            planes@.len() > 0,
            mono == (planes@.len() == 1),
            frames == stereo_frames(planes@),
            frame <= frames,
            out@.len() == 2 * frame,
            forall|slot: int|
                0 <= slot < out@.len() ==> source_plane(planes@, slot)[slot / 2].converts_to(
                    #[trigger] out@[slot],
                ),
        decreases frames - frame,
    {
        let left = planes[0][frame].to_sample();
        let right = if mono {
            left
        } else {
            planes[1][frame].to_sample()
        };
        out.push(left);
        out.push(right);
        frame = frame + 1;
    }
    out
}

/// In the rendition of a single channel the two samples of every frame are
/// the same pattern.
pub proof fn lemma_mono_frames_identical<T: Pcm>(out: Seq<u32>, planes: Seq<Vec<T>>, frame: int)
    requires
        is_stereo_of(out, planes),
        planes.len() == 1,
        0 <= frame < stereo_frames(planes),
    ensures
        out[2 * frame] == out[2 * frame + 1],
{
    let value = planes[0]@[frame];
    assert(source_plane(planes, 2 * frame)[(2 * frame) / 2].converts_to(out[2 * frame]));
    assert(source_plane(planes, 2 * frame + 1)[(2 * frame + 1) / 2].converts_to(
        out[2 * frame + 1],
    ));
    value.lemma_converts_unique(out[2 * frame], out[2 * frame + 1]);
}

/// One decoded packet: a plane of values for every channel, in the encoding
/// that the codec delivered.
pub enum DecodedAudio {
    /// 32-bit float samples, as patterns.
    F32(Vec<Vec<u32>>),
    /// 16-bit signed samples.
    S16(Vec<Vec<i16>>),
    /// 32-bit signed samples.
    S32(Vec<Vec<i32>>),
    /// 8-bit unsigned samples.
    U8(Vec<Vec<u8>>),
    /// Any other encoding: such a packet is passed over.
    Unsupported,
}

/// `out` is what a decoded packet contributes to the sample stream.
pub open spec fn is_stream_of(out: Seq<u32>, decoded: DecodedAudio) -> bool {
    match decoded {
        DecodedAudio::F32(planes) => is_stereo_of(out, planes@),
        DecodedAudio::S16(planes) => is_stereo_of(out, planes@),
        DecodedAudio::S32(planes) => is_stereo_of(out, planes@),
        DecodedAudio::U8(planes) => is_stereo_of(out, planes@),
        DecodedAudio::Unsupported => out.len() == 0,
    }
}

/// The interleaved stereo samples of a decoded packet. A mono packet gives
/// each sample twice; of more than two channels the first two are kept; an
/// unsupported encoding gives no samples.
pub fn to_stereo_samples(decoded: &DecodedAudio) -> (out: Vec<u32>)
    ensures
        is_stream_of(out@, *decoded),
{
    match decoded {
        DecodedAudio::F32(planes) => interleave_stereo(planes),
        DecodedAudio::S16(planes) => interleave_stereo(planes),
        DecodedAudio::S32(planes) => interleave_stereo(planes),
        DecodedAudio::U8(planes) => interleave_stereo(planes),
        DecodedAudio::Unsupported => Vec::new(),
    }
}

/// How long the feeding thread sleeps when the playback channel is full.
pub const BACKOFF_MILLIS: u64 = 5;

/// What the feeding thread does after one step of a feed.
#[derive(Clone, Copy, Debug, PartialEq, Eq, Structural)]
pub enum FeedAction {
    /// Some samples were accepted and some remain: step again at once.
    Continue,
    /// The channel was full: sleep for [`BACKOFF_MILLIS`], then step again.
    Backoff,
    /// Every sample has been accepted.
    Done,
    /// A stop was requested while samples remained: they are dropped.
    Stopped,
}

impl FeedAction {
    /// True of the two actions that end a feed.
    pub open spec fn is_final(self) -> bool {
        self == FeedAction::Done || self == FeedAction::Stopped
    }
}

/// The action that follows a write which accepted `written` samples and left
/// `remaining` of them.
pub open spec fn action_after_write(remaining: nat, written: nat) -> FeedAction {
    if remaining == 0 {
        FeedAction::Done
    } else if written == 0 {
        FeedAction::Backoff
    } else {
        FeedAction::Continue
    }
}

/// The samples of one packet on their way into the playback channel.
pub struct PacketFeed {
    samples: Vec<u32>,
    offset: usize,
}

impl PacketFeed {
    #[verifier::type_invariant]
    spec fn well_formed(self) -> bool {
        self.offset <= self.samples@.len()
    }

    /// All samples of the packet.
    pub closed spec fn samples(&self) -> Seq<u32> {
        self.samples@
    }

    /// How many of them the playback channel has accepted.
    pub closed spec fn offset(&self) -> nat {
        self.offset as nat
    }

    /// The samples that the playback channel has not accepted yet.
    pub open spec fn unwritten(&self) -> Seq<u32> {
        self.samples().skip(self.offset() as int)
    }

    /// A feed of the given samples, none of them written yet.
    pub fn new(samples: Vec<u32>) -> (feed: PacketFeed)
        ensures
            feed.samples() == samples@,
            feed.offset() == 0,
    {
        PacketFeed { samples, offset: 0 }
    }

    /// A feed of the stereo samples of a decoded packet.
    pub fn from_decoded(decoded: &DecodedAudio) -> (feed: PacketFeed)
        ensures
            is_stream_of(feed.samples(), *decoded),
            feed.offset() == 0,
    {
        PacketFeed { samples: to_stereo_samples(decoded), offset: 0 }
    }

    /// The number of samples not yet accepted.
    pub fn remaining(&self) -> (n: usize)
        ensures
            n == self.samples().len() - self.offset(),
            self.offset() <= self.samples().len(),
    {
        proof {
            use_type_invariant(self);
        }
        self.samples.len() - self.offset
    }

    /// One step of the blocking write: at most one write to the playback
    /// channel, of all samples that remain.
    ///
    /// With nothing left the feed is `Done`. Else a requested stop ends it at
    /// once, before anything is written. Else the channel takes what it has
    /// room for, in order, and the action says whether to go on, to back off
    /// or to finish.
    pub fn step(&mut self, playback: &mut SampleProducer, stop_requested: bool) -> (action:
        FeedAction)
        ensures
            final(self).samples() == old(self).samples(),
            old(self).offset() <= final(self).offset() <= old(self).samples().len(),
            final(playback).spec_capacity() == old(playback).spec_capacity(),
            old(self).unwritten().len() == 0 ==> action == FeedAction::Done,
            old(self).unwritten().len() > 0 && stop_requested ==> action == FeedAction::Stopped,
            old(self).unwritten().len() == 0 || stop_requested ==> final(self).offset()
                == old(self).offset() && *final(playback) == *old(playback),
            old(self).unwritten().len() > 0 && !stop_requested ==> producer_write(
                old(playback).pending(),
                final(playback).pending(),
                old(playback).spec_capacity(),
                old(self).unwritten(),
                (final(self).offset() - old(self).offset()) as nat,
            ) && action == action_after_write(
                final(self).unwritten().len(),
                (final(self).offset() - old(self).offset()) as nat,
            ),
    {
        proof {
            use_type_invariant(&*self);
        }
        let total = self.samples.len();
        if self.offset >= total {
            return FeedAction::Done;
        }
        if stop_requested {
            return FeedAction::Stopped;
        }
        let rest = vstd::slice::slice_subrange(self.samples.as_slice(), self.offset, total);
        assert(rest@ == self.samples@.skip(self.offset as int));
        let written = playback.write(rest);
        self.offset = self.offset + written;
        if self.offset == total {
            FeedAction::Done
        } else if written == 0 {
            FeedAction::Backoff
        } else {
            FeedAction::Continue
        }
    }

    /// Offers the whole packet to the analysis channel, once and without
    /// waiting: what does not fit is dropped. Returns how many samples were
    /// taken.
    pub fn offer(&self, analysis: &mut SampleProducer) -> (taken: usize)
        ensures
            producer_write(
                old(analysis).pending(),
                final(analysis).pending(),
                old(analysis).spec_capacity(),
                self.samples(),
                taken as nat,
            ),
            final(analysis).spec_capacity() == old(analysis).spec_capacity(),
    {
        analysis.write(self.samples.as_slice())
    }
}

/// One step of pushing a packet: a step of the blocking write to the playback
/// channel and, once that has ended in either way, one offer of the whole
/// packet to the analysis channel, if there is one.
///
/// The playback channel alone sets the pace: the analysis channel is written
/// once, never waited for, and not touched before the feed has ended. Returns
/// the action to take and how many samples the analysis channel took.
pub fn push_samples_to_buffer(
    feed: &mut PacketFeed,
    producer: &mut SampleProducer,
    stop_requested: bool,
    analysis_producer: &mut Option<SampleProducer>,
) -> (r: (FeedAction, usize))
    ensures
        final(feed).samples() == old(feed).samples(),
        old(feed).offset() <= final(feed).offset() <= old(feed).samples().len(),
        final(producer).spec_capacity() == old(producer).spec_capacity(),
        final(producer).pending().len() <= old(producer).spec_capacity()
            || *final(producer) == *old(producer),
        (*final(analysis_producer)) is Some == (*old(analysis_producer)) is Some,
        (*old(analysis_producer)) is Some ==> (*final(analysis_producer))->0.spec_capacity()
            == (*old(analysis_producer))->0.spec_capacity(),
        old(feed).unwritten().len() == 0 ==> r.0 == FeedAction::Done,
        old(feed).unwritten().len() > 0 && stop_requested ==> r.0 == FeedAction::Stopped,
        old(feed).unwritten().len() == 0 || stop_requested ==> final(feed).offset()
            == old(feed).offset() && *final(producer) == *old(producer),
        old(feed).unwritten().len() > 0 && !stop_requested ==> producer_write(
            old(producer).pending(),
            final(producer).pending(),
            old(producer).spec_capacity(),
            old(feed).unwritten(),
            (final(feed).offset() - old(feed).offset()) as nat,
        ) && r.0 == action_after_write(
            final(feed).unwritten().len(),
            (final(feed).offset() - old(feed).offset()) as nat,
        ),
        !r.0.is_final() || (*old(analysis_producer)) is None ==> r.1 == 0
            && *final(analysis_producer) == *old(analysis_producer),
        r.0.is_final() && (*old(analysis_producer)) is Some ==> (*final(analysis_producer))
            is Some && producer_write(
            (*old(analysis_producer))->0.pending(),
            (*final(analysis_producer))->0.pending(),
            (*old(analysis_producer))->0.spec_capacity(),
            old(feed).samples(),
            r.1 as nat,
        ),
{
    let action = feed.step(producer, stop_requested);
    let mut taken: usize = 0;
    match action {
        FeedAction::Done | FeedAction::Stopped => {
            match analysis_producer {
                Some(analysis) => {
                    taken = feed.offer(analysis);
                },
                None => {},
            }
        },
        _ => {},
    }
    (action, taken)
}

/// What the container says of one of its tracks.
pub struct TrackInfo {
    /// The track's identifier: packets carry it.
    pub id: u32,
    /// False where the track's codec is the null codec.
    pub playable: bool,
    /// The track's sample rate, where the container states it.
    pub sample_rate: Option<u32>,
}

/// Why a decode session could not start.
#[derive(Clone, Copy, Debug, PartialEq, Eq, Structural)]
pub enum DecoderError {
    /// The file could not be read or its container was not recognised.
    SourceError,
    /// The container holds no track with a codec.
    NoAudioTrack,
}

/// `index` is the first playable track.
pub open spec fn is_first_playable(tracks: Seq<TrackInfo>, index: int) -> bool {
    &&& 0 <= index < tracks.len()
    &&& tracks[index].playable
    &&& forall|earlier: int| 0 <= earlier < index ==> !(#[trigger] tracks[earlier]).playable
}

/// The index of the first track whose codec is not the null codec, if there
/// is one.
pub fn select_track(tracks: &Vec<TrackInfo>) -> (found: Option<usize>)
    ensures
        found matches Some(index) ==> is_first_playable(tracks@, index as int),
        found is None ==> forall|i: int| 0 <= i < tracks@.len() ==> !(#[trigger] tracks@[i]).playable,
{
    let mut index: usize = 0;
    while index < tracks.len()
        invariant
            index <= tracks@.len(),
            forall|earlier: int| 0 <= earlier < index ==> !(#[trigger] tracks@[earlier]).playable,
        decreases tracks@.len() - index,
    {
        if tracks[index].playable {
            return Some(index);
        }
        index = index + 1;
    }
    None
}

/// What the container handed back when asked for the next packet.
#[derive(Clone, Copy, Debug, PartialEq, Eq, Structural)]
pub enum PacketOutcome {
    /// A packet of the given track.
    Packet { track_id: u32 },
    /// The stream has ended.
    EndOfStream,
    /// Any other read error: none can be recovered from.
    Failed,
}

/// How the codec fared with a packet.
#[derive(Clone, Copy, Debug, PartialEq, Eq, Structural)]
pub enum DecodeOutcome {
    /// The packet was decoded.
    Decoded,
    /// The packet was malformed: it is skipped.
    Malformed,
    /// Any other error: the session ends.
    Failed,
}

/// What the decode loop does next.
#[derive(Clone, Copy, Debug, PartialEq, Eq, Structural)]
pub enum DecodeStep {
    /// Ask the container for the next packet.
    ReadPacket,
    /// Hand the packet to the codec.
    Decode,
    /// Push the decoded samples.
    Push,
    /// Leave the loop: the session is marked finished.
    Finish,
}

/// The mark by which a session says that it has finished: that its loop
/// has ended, for whatever reason, or that it could not begin. The worker
/// holds it and hands what it says on to the player. Once set it stays set.
pub struct FinishedFlag {
    set: bool,
}

impl FinishedFlag {
    /// Whether the session has finished.
    pub closed spec fn view(&self) -> bool {
        self.set
    }

    /// The flag of a session that has not finished.
    pub fn new() -> (flag: FinishedFlag)
        ensures
            !flag@,
    {
        FinishedFlag { set: false }
    }

    /// Whether the session has finished.
    pub fn is_set(&self) -> (set: bool)
        ensures
            set == self@,
    {
        self.set
    }

    /// Marks the session finished.
    pub fn set(&mut self)
        ensures
            final(self)@,
    {
        self.set = true;
    }
}

/// The step at the top of the loop: a finished session reads no more, and a
/// requested stop ends the session before the next packet is read.
pub open spec fn step_at_loop_top(finished: bool, stop_requested: bool) -> DecodeStep {
    if finished || stop_requested {
        DecodeStep::Finish
    } else {
        DecodeStep::ReadPacket
    }
}

/// The step after a read: only packets of the session's own track are
/// decoded, those of other tracks are passed over, and the end of the stream
/// or a read error ends the session.
pub open spec fn step_after_read(finished: bool, own_track: u32, outcome: PacketOutcome) -> DecodeStep {
    if finished {
        DecodeStep::Finish
    } else {
        match outcome {
            PacketOutcome::Packet { track_id } => if track_id == own_track {
                DecodeStep::Decode
            } else {
                DecodeStep::ReadPacket
            },
            PacketOutcome::EndOfStream => DecodeStep::Finish,
            PacketOutcome::Failed => DecodeStep::Finish,
        }
    }
}

/// The step after the codec ran: a malformed packet is skipped and the loop
/// goes on; any other error ends the session.
pub open spec fn step_after_decode(finished: bool, outcome: DecodeOutcome) -> DecodeStep {
    if finished {
        DecodeStep::Finish
    } else {
        match outcome {
            DecodeOutcome::Decoded => DecodeStep::Push,
            DecodeOutcome::Malformed => DecodeStep::ReadPacket,
            DecodeOutcome::Failed => DecodeStep::Finish,
        }
    }
}

/// One session of decoding one file: the track it follows and the rate of
/// its samples.
///
/// Every step of the session that ends its loop marks it finished, and so
/// does a session that cannot be opened.
pub struct DecodeSession {
    track_id: u32,
    sample_rate: u32,
}

impl DecodeSession {
    /// The identifier of the track that is decoded.
    pub closed spec fn spec_track_id(&self) -> u32 {
        self.track_id
    }

    /// The sample rate of the source.
    pub closed spec fn spec_sample_rate(&self) -> u32 {
        self.sample_rate
    }

    /// Starts a session on what probing the source gave: its tracks, or
    /// nothing where it could not be read or recognised. The session follows
    /// the first playable track; where that track states no sample rate,
    /// `default_rate` stands in. A session that cannot start is finished at
    /// once; it has touched no channel.
    pub fn open(
        probed: Option<&Vec<TrackInfo>>,
        default_rate: u32,
        finished: &mut FinishedFlag,
    ) -> (session: Result<DecodeSession, DecoderError>)
        ensures
            final(finished)@ == (old(finished)@ || session is Err),
            probed is None ==> session == Err::<DecodeSession, DecoderError>(
                DecoderError::SourceError,
            ),
            probed matches Some(tracks) ==> match session {
                Ok(s) => exists|index: int|
                    is_first_playable(tracks@, index) && s.spec_track_id() == tracks@[index].id
                        && s.spec_sample_rate() == match tracks@[index].sample_rate {
                        Some(rate) => rate,
                        None => default_rate,
                    },
                Err(e) => e == DecoderError::NoAudioTrack && forall|i: int|
                    0 <= i < tracks@.len() ==> !(#[trigger] tracks@[i]).playable,
            },
    {
        match probed {
            None => {
                finished.set();
                Err(DecoderError::SourceError)
            },
            Some(tracks) => match select_track(tracks) {
                None => {
                    finished.set();
                    Err(DecoderError::NoAudioTrack)
                },
                Some(index) => {
                    let sample_rate = match tracks[index].sample_rate {
                        Some(rate) => rate,
                        None => default_rate,
                    };
                    assert(is_first_playable(tracks@, index as int));
                    Ok(DecodeSession { track_id: tracks[index].id, sample_rate })
                },
            },
        }
    }

    /// The identifier of the track that is decoded.
    pub fn track_id(&self) -> (id: u32)
        ensures
            id == self.spec_track_id(),
    {
        self.track_id
    }

    /// The sample rate of the source.
    pub fn sample_rate(&self) -> (rate: u32)
        ensures
            rate == self.spec_sample_rate(),
    {
        self.sample_rate
    }

    /// At the top of the loop: a requested stop ends the session before the
    /// next packet is read. Ending the loop marks the session finished.
    pub fn at_loop_top(&self, stop_requested: bool, finished: &mut FinishedFlag) -> (step:
        DecodeStep)
        ensures
            step == step_at_loop_top(old(finished)@, stop_requested),
            final(finished)@ == (step == DecodeStep::Finish),
    {
        if finished.is_set() || stop_requested {
            finished.set();
            DecodeStep::Finish
        } else {
            DecodeStep::ReadPacket
        }
    }

    /// After a read: only packets of the session's own track are decoded,
    /// those of other tracks are passed over, and the end of the stream or a
    /// read error ends the session. Ending the loop marks the session
    /// finished.
    pub fn after_read(&self, outcome: PacketOutcome, finished: &mut FinishedFlag) -> (step:
        DecodeStep)
        ensures
            step == step_after_read(old(finished)@, self.spec_track_id(), outcome),
            final(finished)@ == (step == DecodeStep::Finish),
    {
        if finished.is_set() {
            return DecodeStep::Finish;
        }
        match outcome {
            PacketOutcome::Packet { track_id } => {
                if track_id == self.track_id {
                    DecodeStep::Decode
                } else {
                    DecodeStep::ReadPacket
                }
            },
            _ => {
                finished.set();
                DecodeStep::Finish
            },
        }
    }

    /// After the codec ran: a malformed packet is skipped and the loop goes
    /// on; any other error ends the session. Ending the loop marks the
    /// session finished.
    pub fn after_decode(&self, outcome: DecodeOutcome, finished: &mut FinishedFlag) -> (step:
        DecodeStep)
        ensures
            step == step_after_decode(old(finished)@, outcome),
            final(finished)@ == (step == DecodeStep::Finish),
    {
        if finished.is_set() {
            return DecodeStep::Finish;
        }
        match outcome {
            DecodeOutcome::Decoded => DecodeStep::Push,
            DecodeOutcome::Malformed => DecodeStep::ReadPacket,
            DecodeOutcome::Failed => {
                finished.set();
                DecodeStep::Finish
            },
        }
    }
}

/// A session ends on a requested stop, on the end of the stream, on a
/// read error and on a decode error that is not a malformed packet, and a
/// finished session takes no step but the last. Each step marks the session
/// finished exactly when it ends the loop, so that the loop is never left
/// without the mark.
pub proof fn lemma_session_ends_finished(
    finished: bool,
    stop_requested: bool,
    own_track: u32,
    read: PacketOutcome,
    decoded: DecodeOutcome,
)
    ensures
        finished || stop_requested ==> step_at_loop_top(finished, stop_requested)
            == DecodeStep::Finish,
        finished || read == PacketOutcome::EndOfStream || read == PacketOutcome::Failed
            ==> step_after_read(finished, own_track, read) == DecodeStep::Finish,
        finished || decoded == DecodeOutcome::Failed ==> step_after_decode(finished, decoded)
            == DecodeStep::Finish,
{
}

/// How long a stop waits for the worker before it lets it go.
pub const STOP_TIMEOUT_MILLIS: u64 = 500;

/// How long a stop sleeps between two looks at the worker.
pub const STOP_POLL_MILLIS: u64 = 10;

/// Where a decoder stands with its worker.
#[derive(Clone, Copy, Debug, PartialEq, Eq, Structural)]
pub enum SessionState {
    /// There is no worker.
    Idle,
    /// A worker is decoding, or has come to its end by itself.
    Running,
    /// The worker has been asked to stop and is waited for.
    StopRequested,
}

/// What the caller of a stop does next.
#[derive(Clone, Copy, Debug, PartialEq, Eq, Structural)]
pub enum StopWait {
    /// There was no worker: nothing to do.
    NoWorker,
    /// The worker has ended: join it.
    Join,
    /// The worker has not ended in time: let it go. It sees the stop flag
    /// and ends by itself.
    Detach,
    /// Sleep for [`STOP_POLL_MILLIS`], then take the next step.
    Poll,
}

/// The step of a stop, given whether the worker has ended and how long the
/// stop has waited.
pub open spec fn stop_decision(worker_finished: bool, waited_millis: u64) -> StopWait {
    if worker_finished {
        StopWait::Join
    } else if waited_millis > STOP_TIMEOUT_MILLIS {
        StopWait::Detach
    } else {
        StopWait::Poll
    }
}

/// The step of a stop, given whether the worker has ended and how long the
/// stop has waited.
pub fn stop_step(worker_finished: bool, waited_millis: u64) -> (step: StopWait)
    ensures
        step == stop_decision(worker_finished, waited_millis),
{
    if worker_finished {
        StopWait::Join
    } else if waited_millis > STOP_TIMEOUT_MILLIS {
        StopWait::Detach
    } else {
        StopWait::Poll
    }
}

/// The decoder: at most one worker at a time, and the protocol by which it
/// is stopped.
pub struct AudioDecoder {
    state: SessionState,
}

impl AudioDecoder {
    /// Where the decoder stands.
    pub closed spec fn spec_state(&self) -> SessionState {
        self.state
    }

    /// A decoder without a worker.
    pub fn new() -> (decoder: AudioDecoder)
        ensures
            decoder.spec_state() == SessionState::Idle,
    {
        AudioDecoder { state: SessionState::Idle }
    }

    /// Where the decoder stands.
    pub fn state(&self) -> (state: SessionState)
        ensures
            state == self.spec_state(),
    {
        self.state
    }

    /// Takes on a worker for a new file. A decoder that still has a worker
    /// refuses: the earlier session has to be stopped first. Returns whether
    /// the worker was taken on.
    pub fn start(&mut self) -> (started: bool)
        ensures
            started == (old(self).spec_state() == SessionState::Idle),
            final(self).spec_state() == if started {
                SessionState::Running
            } else {
                old(self).spec_state()
            },
    {
        match self.state {
            SessionState::Idle => {
                self.state = SessionState::Running;
                true
            },
            _ => false,
        }
    }

    /// One step of stopping the worker. The first step asks it to stop; each
    /// step then looks whether it has ended. The decoder is idle again as
    /// soon as the worker is joined or let go.
    pub fn stop(&mut self, worker_finished: bool, waited_millis: u64) -> (step: StopWait)
        ensures
            step == if old(self).spec_state() == SessionState::Idle {
                StopWait::NoWorker
            } else {
                stop_decision(worker_finished, waited_millis)
            },
            final(self).spec_state() == if step == StopWait::Poll {
                SessionState::StopRequested
            } else {
                SessionState::Idle
            },
    {
        match self.state {
            SessionState::Idle => StopWait::NoWorker,
            _ => {
                let step = stop_step(worker_finished, waited_millis);
                self.state = match step {
                    StopWait::Poll => SessionState::StopRequested,
                    _ => SessionState::Idle,
                };
                step
            },
        }
    }

    /// Whether a worker is at work: there is one and it has not ended.
    pub fn is_running(&self, worker_finished: bool) -> (running: bool)
        ensures
            running == (self.spec_state() != SessionState::Idle && !worker_finished),
    {
        match self.state {
            SessionState::Idle => false,
            _ => !worker_finished,
        }
    }
}

impl Default for AudioDecoder {
    /// A decoder without a worker.
    fn default() -> (decoder: AudioDecoder)
        ensures
            decoder.spec_state() == SessionState::Idle,
    {
        AudioDecoder::new()
    }
}

/// A stop never waits for long: whatever the worker does, a stop that sleeps
/// [`STOP_POLL_MILLIS`] between its steps has joined the worker or let it go
/// after 51 steps at the latest. A worker that is blocked on a full channel
/// sees the stop flag at its next step ([`PacketFeed::step`]) and writes
/// nothing more.
pub proof fn lemma_stop_is_bounded(worker_finished: bool, steps: nat)
    requires
        steps > STOP_TIMEOUT_MILLIS / STOP_POLL_MILLIS,
        steps * STOP_POLL_MILLIS <= u64::MAX,
    ensures
        stop_decision(worker_finished, (steps * STOP_POLL_MILLIS) as u64) != StopWait::Poll,
{
}

} // verus!
