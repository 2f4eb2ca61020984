//! Decoding a song with the media library.
//!
//! The media library does the work on the file, step by step. Here it is decided which step
//! comes next, what becomes of the samples, and what a failure means.

use vstd::prelude::*;

use crate::brstm_codec::same_lengths;
use crate::brstm_codec::samples_of;
use crate::error::EncoderError;
use crate::error::FfmpegError;
use crate::error::FfmpegErrorExt;
use crate::error::FfmpegErrorKind;

verus! {

/// One of the streams in a file.
#[derive(Debug, Clone, Copy)]
pub struct StreamInfo {
    /// The number by which packets refer to the stream.
    pub index: usize,
    /// Whether it is sound.
    pub audio: bool,
}

/// What happens when frames are taken from the decoder.
#[derive(Debug)]
pub enum FrameEvent {
    /// The decoder was asked for a frame; the frame may not say how its channels are laid out.
    Received { result: Result<(), FfmpegError>, layout_empty: bool },
    /// The frame has gone through the resampler, which may hold back a part of it. These are
    /// the samples that came out.
    Resampled { delay: Result<bool, FfmpegError>, planes: Vec<Vec<i16>> },
    /// A part that the resampler held back has come out.
    Flushed { delay: Result<bool, FfmpegError>, planes: Vec<Vec<i16>> },
}

/// What to do next to take frames from the decoder.
#[derive(Debug, Clone, Copy, PartialEq, Eq, Structural)]
pub enum FrameStep {
    /// Ask the decoder for a frame.
    Receive,
    /// Send the frame through the resampler, as stereo if it does not say what it is.
    Resample { assume_stereo: bool },
    /// Have the resampler give out what it holds back.
    Flush,
    /// There are no frames for now.
    Done,
}

/// What happens while a song is decoded.
#[derive(Debug)]
pub enum DecodeEvent {
    /// A decoder for the stream has been made.
    DecoderCreated(Result<(), FfmpegError>),
    /// The decoder has been opened for sound; it may not say how the channels are laid out.
    AudioDecoderOpened(Result<bool, FfmpegError>),
    /// A resampler has been made for so many channels.
    ResamplerCreated(Result<u16, FfmpegError>),
    /// A packet of the stream with a number has been read.
    Packet(usize),
    /// The file is read.
    NoMorePackets,
    PacketSent(Result<(), FfmpegError>),
    DecoderFlushed,
    Frame(FrameEvent),
    /// The sampling rate of the song.
    Rate(u32),
}

/// What to do next to decode a song.
#[derive(Debug)]
pub enum DecodeAction {
    /// Make a decoder for the stream at a position.
    CreateDecoder { position: usize },
    OpenAudioDecoder,
    /// Make a resampler to 16 bits in planes, for stereo if the decoder does not say what the
    /// song is.
    CreateResampler { assume_stereo: bool },
    ReadPacket,
    /// Send the packet to the decoder.
    SendPacket,
    FlushDecoder,
    Frame(FrameStep),
    /// Look up the sampling rate.
    ReadRate,
    Finish(Result<(Vec<Vec<i16>>, u16), EncoderError>),
}

/// [`DecodeAction`] as the contracts speak of it.
pub enum DecodeStep {
    CreateDecoder { position: usize },
    OpenAudioDecoder,
    CreateResampler { assume_stereo: bool },
    ReadPacket,
    SendPacket,
    FlushDecoder,
    Frame(FrameStep),
    ReadRate,
    Finish(Result<(Seq<Seq<i16>>, u16), EncoderError>),
}

impl View for DecodeAction {
    type V = DecodeStep;

    open spec fn view(&self) -> DecodeStep {
        match *self {
            DecodeAction::CreateDecoder { position } => DecodeStep::CreateDecoder { position },
            DecodeAction::OpenAudioDecoder => DecodeStep::OpenAudioDecoder,
            DecodeAction::CreateResampler { assume_stereo } => DecodeStep::CreateResampler {
                assume_stereo,
            },
            DecodeAction::ReadPacket => DecodeStep::ReadPacket,
            DecodeAction::SendPacket => DecodeStep::SendPacket,
            DecodeAction::FlushDecoder => DecodeStep::FlushDecoder,
            DecodeAction::Frame(step) => DecodeStep::Frame(step),
            DecodeAction::ReadRate => DecodeStep::ReadRate,
            DecodeAction::Finish(Ok(song)) => DecodeStep::Finish(Ok((samples_of(song.0@), song.1))),
            DecodeAction::Finish(Err(e)) => DecodeStep::Finish(Err(e)),
        }
    }
}

/// Where the decoding of a song stands.
#[derive(Debug, Clone, Copy, PartialEq, Eq, Structural)]
pub enum Phase {
    CreatingDecoder,
    OpeningDecoder,
    CreatingResampler,
    ReadingPacket,
    SendingPacket,
    /// The decoder gives out frames. It is draining once the file is read.
    Receiving { draining: bool },
    Resampling { draining: bool },
    FlushingResampler { draining: bool },
    FlushingDecoder,
    ReadingRate,
    Finished,
}

/// How far the decoding of a song has come.
pub struct DecodeState {
    /// The error number that means that there is no frame yet.
    pub eagain: i32,
    /// The number of the stream that is decoded.
    pub stream: usize,
    pub phase: Phase,
    /// The samples of each channel so far.
    pub out: Seq<Seq<i16>>,
}

/// The failure of a step that says what was being done.
pub open spec fn failure(
    msg: &'static str,
    err: Option<FfmpegError>,
    user_fault: bool,
) -> EncoderError {
    EncoderError::FfmpegError { msg, err, user_fault }
}

/// The position of the first stream that is sound.
pub open spec fn first_audio(streams: Seq<StreamInfo>) -> Option<nat>
    decreases streams.len(),
{
    if streams.len() == 0 {
        None
    } else if streams.first().audio {
        Some(0)
    } else {
        match first_audio(streams.drop_first()) {
            Some(k) => Some(k + 1),
            None => None,
        }
    }
}

/// Every channel with the samples of its plane behind it.
pub open spec fn extended(out: Seq<Seq<i16>>, planes: Seq<Seq<i16>>) -> Seq<Seq<i16>> {
    Seq::new(out.len(), |c: int| out[c] + planes[c])
}

/// What the answer to the demand for a frame means: there is one, there is none, or decoding
/// has failed.
pub open spec fn receive_outcome(result: Result<(), FfmpegError>, eagain: i32) -> Result<
    bool,
    EncoderError,
> {
    match result {
        Ok(_) => Ok(true),
        Err(e) => if e.kind == FfmpegErrorKind::Eof || e.kind == (FfmpegErrorKind::Other {
            errno: eagain,
        }) {
            Ok(false)
        } else {
            Err(failure("receive failed", Some(e), false))
        },
    }
}

/// What a resampler leads to that holds something back or nothing, or has failed.
pub open spec fn resample_outcome(delay: Result<bool, FfmpegError>, msg: &'static str) -> Result<
    FrameStep,
    EncoderError,
> {
    match delay {
        Ok(more) => Ok(
            if more {
                FrameStep::Flush
            } else {
                FrameStep::Receive
            },
        ),
        Err(e) => Err(failure(msg, Some(e), false)),
    }
}

/// What an event leads to when frames are taken from the decoder.
pub open spec fn frame_outcome(event: FrameEvent, eagain: i32) -> Result<FrameStep, EncoderError> {
    match event {
        FrameEvent::Received { result, layout_empty } => match receive_outcome(result, eagain) {
            Ok(true) => Ok(FrameStep::Resample { assume_stereo: layout_empty }),
            Ok(false) => Ok(FrameStep::Done),
            Err(e) => Err(e),
        },
        FrameEvent::Resampled { delay, planes } => resample_outcome(delay, "resampler failed"),
        FrameEvent::Flushed { delay, planes } => resample_outcome(delay, "flush failed"),
    }
}

/// The samples that come out of the resampler with an event, if any do.
pub open spec fn frame_planes(event: FrameEvent) -> Option<Seq<Seq<i16>>> {
    match event {
        FrameEvent::Resampled { delay: Ok(_), planes } => Some(samples_of(planes@)),
        FrameEvent::Flushed { delay: Ok(_), planes } => Some(samples_of(planes@)),
        _ => None,
    }
}

/// The channels after an event.
pub open spec fn frame_out(event: FrameEvent, out: Seq<Seq<i16>>) -> Seq<Seq<i16>> {
    match frame_planes(event) {
        Some(planes) => extended(out, planes),
        None => out,
    }
}

/// Tells whether there is a frame, there is none, or decoding has failed.
pub fn map_receive_result(res: Result<(), FfmpegError>, eagain: i32) -> (more: Result<
    bool,
    EncoderError,
>)
    ensures
        more == receive_outcome(res, eagain),
{
    match res {
        Ok(()) => Ok(true),
        Err(e) => {
            if e.kind == FfmpegErrorKind::Eof || e.kind == (FfmpegErrorKind::Other {
                errno: eagain,
            }) {
                Ok(false)
            } else {
                Err(
                    EncoderError::FfmpegError {
                        msg: "receive failed",
                        err: Some(e),
                        user_fault: false,
                    },
                )
            }
        },
    }
}

/// Puts the samples of each plane behind those of its channel.
pub fn send_to_encode(planes: &Vec<Vec<i16>>, out: &mut Vec<Vec<i16>>) -> (result: Result<
    (),
    EncoderError,
>)
    requires
        planes@.len() == old(out)@.len(),
    ensures
        result is Ok,
        samples_of(final(out)@) == extended(samples_of(old(out)@), samples_of(planes@)),
{
    let ghost all = samples_of(out@);
    let ghost more = samples_of(planes@);
    let mut i: usize = 0;
    while i < out.len()
        invariant
            i <= out@.len(),
            out@.len() == all.len(),
            planes@.len() == all.len(),
            more == samples_of(planes@),
            forall|j: int| 0 <= j < i ==> (#[trigger] out@[j])@ == extended(all, more)[j],
            forall|j: int| i <= j < all.len() ==> (#[trigger] out@[j])@ == all[j],
        decreases out@.len() - i,
    {
        let chn = &mut out[i];
        chn.extend_from_slice(planes[i].as_slice());
        assert(chn@ =~= all[i as int] + more[i as int]);
        i += 1;
    }
    assert(samples_of(out@) =~= extended(all, more));
    Ok(())
}

/// What the resampler has given out goes to the channels; then comes what it holds back, or
/// the next frame.
fn take_samples(
    delay: Result<bool, EncoderError>,
    planes: &Vec<Vec<i16>>,
    out: &mut Vec<Vec<i16>>,
) -> (step: Result<FrameStep, EncoderError>)
    requires
        delay is Ok ==> planes@.len() == old(out)@.len(),
    ensures
        match delay {
            Ok(more) => {
                &&& step == Ok::<FrameStep, EncoderError>(
                    if more {
                        FrameStep::Flush
                    } else {
                        FrameStep::Receive
                    },
                )
                &&& samples_of(final(out)@) == extended(samples_of(old(out)@), samples_of(planes@))
            },
            Err(e) => {
                &&& step == Err::<FrameStep, EncoderError>(e)
                &&& samples_of(final(out)@) == samples_of(old(out)@)
            },
        },
{
    let more = delay?;
    send_to_encode(planes, out)?;
    Ok(
        if more {
            FrameStep::Flush
        } else {
            FrameStep::Receive
        },
    )
}

/// Takes note of what has happened to a frame and says what to do next.
pub fn receive_decoded_frames(event: FrameEvent, eagain: i32, out: &mut Vec<Vec<i16>>) -> (step:
    Result<FrameStep, EncoderError>)
    requires
        frame_planes(event) matches Some(planes) ==> planes.len() == old(out)@.len(),
    ensures
        step == frame_outcome(event, eagain),
        samples_of(final(out)@) == frame_out(event, samples_of(old(out)@)),
{
    match event {
        FrameEvent::Received { result, layout_empty } => match map_receive_result(result, eagain) {
            Ok(more) => Ok(
                if more {
                    FrameStep::Resample { assume_stereo: layout_empty }
                } else {
                    FrameStep::Done
                },
            ),
            Err(e) => Err(e),
        },
        FrameEvent::Resampled { delay, planes } => take_samples(
            delay.context("resampler failed", false),
            &planes,
            out,
        ),
        FrameEvent::Flushed { delay, planes } => take_samples(
            delay.context("flush failed", false),
            &planes,
            out,
        ),
    }
}

/// An event that can happen at this point. The resampler gives out one plane for each
/// channel.
pub open spec fn decode_expected(s: DecodeState, event: DecodeEvent) -> bool {
    match event {
        DecodeEvent::DecoderCreated(_) => s.phase == Phase::CreatingDecoder,
        DecodeEvent::AudioDecoderOpened(_) => s.phase == Phase::OpeningDecoder,
        DecodeEvent::ResamplerCreated(_) => s.phase == Phase::CreatingResampler,
        DecodeEvent::Packet(_) | DecodeEvent::NoMorePackets => s.phase == Phase::ReadingPacket,
        DecodeEvent::PacketSent(_) => s.phase == Phase::SendingPacket,
        DecodeEvent::DecoderFlushed => s.phase == Phase::FlushingDecoder,
        DecodeEvent::Frame(frame) => {
            &&& match frame {
                FrameEvent::Received { .. } => s.phase is Receiving,
                FrameEvent::Resampled { .. } => s.phase is Resampling,
                FrameEvent::Flushed { .. } => s.phase is FlushingResampler,
            }
            &&& frame_planes(frame) matches Some(planes) ==> planes.len() == s.out.len()
        },
        DecodeEvent::Rate(_) => s.phase == Phase::ReadingRate,
    }
}

/// The decoder gives out frames for the last time.
pub open spec fn draining(phase: Phase) -> bool {
    match phase {
        Phase::Receiving { draining } => draining,
        Phase::Resampling { draining } => draining,
        Phase::FlushingResampler { draining } => draining,
        _ => false,
    }
}

/// Decoding has failed.
pub open spec fn decode_failed(s: DecodeState, error: EncoderError) -> (DecodeState, DecodeStep) {
    (DecodeState { phase: Phase::Finished, ..s }, DecodeStep::Finish(Err(error)))
}

/// Decoding goes on.
pub open spec fn decode_continued(s: DecodeState, phase: Phase, step: DecodeStep) -> (
    DecodeState,
    DecodeStep,
) {
    (DecodeState { phase, ..s }, step)
}

/// What an event leads to.
pub open spec fn decode_advanced(s: DecodeState, event: DecodeEvent) -> (DecodeState, DecodeStep) {
    match event {
        DecodeEvent::DecoderCreated(Ok(_)) => decode_continued(
            s,
            Phase::OpeningDecoder,
            DecodeStep::OpenAudioDecoder,
        ),
        DecodeEvent::DecoderCreated(Err(e)) => decode_failed(
            s,
            failure("could not create decoder", Some(e), true),
        ),
        DecodeEvent::AudioDecoderOpened(Ok(layout_empty)) => decode_continued(
            s,
            Phase::CreatingResampler,
            DecodeStep::CreateResampler { assume_stereo: layout_empty },
        ),
        DecodeEvent::AudioDecoderOpened(Err(e)) => decode_failed(
            s,
            failure("not an audio decoder", Some(e), false),
        ),
        DecodeEvent::ResamplerCreated(Ok(channels)) => decode_continued(
            DecodeState { out: Seq::new(channels as nat, |c: int| Seq::<i16>::empty()), ..s },
            Phase::ReadingPacket,
            DecodeStep::ReadPacket,
        ),
        DecodeEvent::ResamplerCreated(Err(e)) => decode_failed(
            s,
            failure("can't create resampler", Some(e), false),
        ),
        DecodeEvent::Packet(stream) => if stream == s.stream {
            decode_continued(s, Phase::SendingPacket, DecodeStep::SendPacket)
        } else {
            decode_continued(s, Phase::ReadingPacket, DecodeStep::ReadPacket)
        },
        DecodeEvent::NoMorePackets => decode_continued(
            s,
            Phase::FlushingDecoder,
            DecodeStep::FlushDecoder,
        ),
        DecodeEvent::PacketSent(Ok(_)) => decode_continued(
            s,
            Phase::Receiving { draining: false },
            DecodeStep::Frame(FrameStep::Receive),
        ),
        DecodeEvent::PacketSent(Err(e)) => decode_failed(
            s,
            failure("sending packet to decoder failed", Some(e), false),
        ),
        DecodeEvent::DecoderFlushed => decode_continued(
            s,
            Phase::Receiving { draining: true },
            DecodeStep::Frame(FrameStep::Receive),
        ),
        DecodeEvent::Frame(frame) => {
            let draining = draining(s.phase);
            let after = DecodeState { out: frame_out(frame, s.out), ..s };
            match frame_outcome(frame, s.eagain) {
                Ok(FrameStep::Done) => if draining {
                    decode_continued(after, Phase::ReadingRate, DecodeStep::ReadRate)
                } else {
                    decode_continued(after, Phase::ReadingPacket, DecodeStep::ReadPacket)
                },
                Ok(step) => decode_continued(
                    after,
                    match step {
                        FrameStep::Resample { .. } => Phase::Resampling { draining },
                        FrameStep::Flush => Phase::FlushingResampler { draining },
                        _ => Phase::Receiving { draining },
                    },
                    DecodeStep::Frame(step),
                ),
                Err(e) => decode_failed(after, e),
            }
        },
        DecodeEvent::Rate(rate) => (
            DecodeState { phase: Phase::Finished, out: Seq::empty(), ..s },
            DecodeStep::Finish(Ok((s.out, (rate % 0x1_0000) as u16))),
        ),
    }
}

/// What the streams of a file lead to, or the failure to open it.
pub open spec fn decode_started(opened: Result<Seq<StreamInfo>, FfmpegError>, eagain: i32) -> (
    DecodeState,
    DecodeStep,
) {
    let s = DecodeState { eagain, stream: 0, phase: Phase::CreatingDecoder, out: Seq::empty() };
    match opened {
        Err(e) => decode_failed(s, failure("couldn't open file", Some(e), false)),
        Ok(streams) => match first_audio(streams) {
            Some(k) => (
                DecodeState { stream: streams[k as int].index, ..s },
                DecodeStep::CreateDecoder { position: k as usize },
            ),
            None => decode_failed(s, failure("could not find audio stream", None, true)),
        },
    }
}

/// The stream that is decoded is the first in the file that is sound; there is none only if
/// none is.
pub proof fn first_audio_is_first(streams: Seq<StreamInfo>)
    ensures
        match first_audio(streams) {
            Some(k) => {
                &&& k < streams.len()
                &&& streams[k as int].audio
                &&& forall|j: int| 0 <= j < k ==> !(#[trigger] streams[j]).audio
            },
            None => forall|j: int| 0 <= j < streams.len() ==> !(#[trigger] streams[j]).audio,
        },
    decreases streams.len(),
{
    if streams.len() > 0 && !streams.first().audio {
        let rest = streams.drop_first();
        first_audio_is_first(rest);
        assert forall|j: int| 1 <= j < streams.len() implies streams[j] == #[trigger] rest[j - 1] by {
        }
        assert forall|j: int| 0 <= j < streams.len() && (first_audio(streams) matches Some(k) ==> j < k)
            implies !(#[trigger] streams[j]).audio by {
            if j > 0 {
                assert(!rest[j - 1].audio);
            }
        }
    }
}

/// How far events lead.
pub open spec fn decode_reached(start: DecodeState, events: Seq<DecodeEvent>) -> DecodeState
    decreases events.len(),
{
    if events.len() == 0 {
        start
    } else {
        decode_advanced(decode_reached(start, events.drop_last()), events.last()).0
    }
}

/// Events that can happen one after the other.
pub open spec fn decode_possible(start: DecodeState, events: Seq<DecodeEvent>) -> bool
    decreases events.len(),
{
    events.len() > 0 ==> {
        &&& decode_possible(start, events.drop_last())
        &&& decode_expected(decode_reached(start, events.drop_last()), events.last())
    }
}

/// The samples that come out of the resampler with an event, if any do.
pub open spec fn planes_in(event: DecodeEvent) -> Option<Seq<Seq<i16>>> {
    match event {
        DecodeEvent::Frame(frame) => frame_planes(frame),
        _ => None,
    }
}

/// All samples of a channel that come out of the resampler, in their order.
pub open spec fn gathered(events: Seq<DecodeEvent>, channel: int) -> Seq<i16>
    decreases events.len(),
{
    if events.len() == 0 {
        Seq::empty()
    } else {
        let before = gathered(events.drop_last(), channel);
        match planes_in(events.last()) {
            Some(planes) => before + planes[channel],
            None => before,
        }
    }
}

/// The decoder is still being set up.
spec fn setting_up(phase: Phase) -> bool {
    phase == Phase::CreatingDecoder || phase == Phase::OpeningDecoder || phase
        == Phase::CreatingResampler
}

/// The file has been read.
spec fn at_end(phase: Phase) -> bool {
    phase == Phase::FlushingDecoder || draining(phase) || phase == Phase::ReadingRate
}

proof fn lemma_decode_invariant(start: DecodeState, events: Seq<DecodeEvent>)
    requires
        start.phase == Phase::CreatingDecoder,
        decode_possible(start, events),
    ensures
        ({
            let s = decode_reached(start, events);
            &&& s.eagain == start.eagain
            &&& s.stream == start.stream
            &&& setting_up(s.phase) ==> forall|c: int| #[trigger]
                gathered(events, c) =~= Seq::<i16>::empty()
            &&& !setting_up(s.phase) && s.phase != Phase::Finished ==> forall|c: int|
                0 <= c < s.out.len() ==> #[trigger] s.out[c] =~= gathered(events, c)
            &&& at_end(s.phase) ==> events.contains(DecodeEvent::NoMorePackets)
        }),
    decreases events.len(),
{
    if events.len() > 0 {
        let init = events.drop_last();
        let event = events.last();
        lemma_decode_invariant(start, init);
        let before = decode_reached(start, init);
        let s = decode_reached(start, events);
        assert(events[events.len() - 1] == event);
        if at_end(s.phase) {
            if at_end(before.phase) {
                let k = choose|k: int| 0 <= k < init.len() && init[k] == DecodeEvent::NoMorePackets;
                assert(events[k] == DecodeEvent::NoMorePackets);
            } else {
                assert(event == DecodeEvent::NoMorePackets);
            }
        }
        if !setting_up(s.phase) && s.phase != Phase::Finished {
            assert forall|c: int| 0 <= c < s.out.len() implies #[trigger] s.out[c] =~= gathered(
                events,
                c,
            ) by {
                if setting_up(before.phase) {
                    assert(gathered(init, c) =~= Seq::<i16>::empty());
                } else {
                    assert(before.out[c] =~= gathered(init, c));
                }
            }
        }
        if setting_up(s.phase) {
            assert forall|c: int| #[trigger] gathered(events, c) =~= Seq::<i16>::empty() by {
                assert(gathered(init, c) =~= Seq::<i16>::empty());
            }
        }
    }
}

/// Nothing is lost and nothing is added: each channel of a decoded song is all that came out
/// of the resampler for it, in order. The song ends only where the file does.
pub proof fn decoded_song_is_what_was_resampled(
    start: DecodeState,
    events: Seq<DecodeEvent>,
    rate: u32,
)
    requires
        start.phase == Phase::CreatingDecoder,
        decode_possible(start, events.push(DecodeEvent::Rate(rate))),
    ensures
        ({
            let s = decode_reached(start, events);
            &&& decode_advanced(s, DecodeEvent::Rate(rate)).1 == DecodeStep::Finish(
                Ok::<(Seq<Seq<i16>>, u16), EncoderError>((s.out, (rate % 0x1_0000) as u16)),
            )
            &&& forall|c: int| 0 <= c < s.out.len() ==> #[trigger] s.out[c] == gathered(events, c)
            &&& events.contains(DecodeEvent::NoMorePackets)
        }),
{
    assert(events.push(DecodeEvent::Rate(rate)).drop_last() =~= events);
    lemma_decode_invariant(start, events);
}

/// As long as the resampler gives out planes of one length each time, the channels are of one
/// length at all times.
pub proof fn decoded_channels_stay_even(start: DecodeState, events: Seq<DecodeEvent>)
    requires
        start.out.len() == 0,
        decode_possible(start, events),
        forall|i: int|
            0 <= i < events.len() ==> (planes_in(#[trigger] events[i]) matches Some(planes)
                ==> same_lengths(planes)),
    ensures
        same_lengths(decode_reached(start, events).out),
    decreases events.len(),
{
    if events.len() > 0 {
        let init = events.drop_last();
        assert forall|i: int| 0 <= i < init.len() implies (planes_in(#[trigger] init[i]) matches Some(
            planes,
        ) ==> same_lengths(planes)) by {
            assert(init[i] == events[i]);
        }
        decoded_channels_stay_even(start, init);
        let before = decode_reached(start, init);
        let s = decode_reached(start, events);
        assert(events[events.len() - 1] == events.last());
        if let Some(planes) = planes_in(events.last()) {
            assert forall|c: int| 0 <= c < s.out.len() implies (#[trigger] s.out[c]).len()
                == s.out[0].len() by {
                assert(before.out[c].len() == before.out[0].len());
                assert(planes[c].len() == planes[0].len());
            }
        }
    }
}

/// The decoder gets the packets of the stream that was chosen, all of them and no others.
pub proof fn only_chosen_packets_are_sent(
    start: DecodeState,
    events: Seq<DecodeEvent>,
    event: DecodeEvent,
)
    requires
        start.phase == Phase::CreatingDecoder,
        decode_possible(start, events.push(event)),
    ensures
        decode_advanced(decode_reached(start, events), event).1 is SendPacket <==> event
            == DecodeEvent::Packet(start.stream),
{
    assert(events.push(event).drop_last() =~= events);
    lemma_decode_invariant(start, events);
}

/// A song or a failure is the last thing that decoding comes to.
pub proof fn nothing_follows_the_end_of_decoding(
    start: DecodeState,
    events: Seq<DecodeEvent>,
    event: DecodeEvent,
)
    requires
        decode_possible(start, events),
    ensures
        decode_reached(start, events).phase == Phase::Finished ==> !decode_possible(
            start,
            events.push(event),
        ),
        decode_possible(start, events.push(event)) ==> (decode_advanced(
            decode_reached(start, events),
            event,
        ).1 is Finish <==> decode_reached(start, events.push(event)).phase == Phase::Finished),
{
    assert(events.push(event).drop_last() =~= events);
}

/// The resampler's samples go behind those of their channels: channel by channel, and in every
/// place.
pub proof fn samples_go_behind(out: Seq<Seq<i16>>, planes: Seq<Seq<i16>>)
    requires
        planes.len() == out.len(),
    ensures
        extended(out, planes).len() == out.len(),
        forall|c: int|
            0 <= c < out.len() ==> #[trigger] extended(out, planes)[c] == out[c] + planes[c],
{
}

/// There is a frame if the decoder gave one. There is none, and nothing is wrong, if it has come
/// to its end or asks to be tried again later. Any other error is a failure of the server's.
pub proof fn demand_for_a_frame_is_answered(result: Result<(), FfmpegError>, eagain: i32)
    ensures
        match result {
            Ok(_) => receive_outcome(result, eagain) == Ok::<bool, EncoderError>(true),
            Err(e) => if e.kind is Eof || (e.kind matches FfmpegErrorKind::Other { errno } && errno
                == eagain) {
                receive_outcome(result, eagain) == Ok::<bool, EncoderError>(false)
            } else {
                receive_outcome(result, eagain) == Err::<bool, EncoderError>(
                    (EncoderError::FfmpegError {
                        msg: "receive failed",
                        err: Some(e),
                        user_fault: false,
                    }),
                )
            },
        },
{
}

/// The samples of an event are the planes that the resampler gave out with it, if it did not
/// fail.
pub proof fn planes_are_what_was_resampled(event: DecodeEvent)
    ensures
        match event {
            DecodeEvent::Frame(FrameEvent::Resampled { delay, planes })
            | DecodeEvent::Frame(FrameEvent::Flushed { delay, planes }) => if delay is Ok {
                &&& planes_in(event) matches Some(samples)
                &&& samples.len() == planes@.len()
                &&& forall|c: int| 0 <= c < planes@.len() ==> #[trigger] samples[c] == planes@[c]@
            } else {
                planes_in(event) is None
            },
            _ => planes_in(event) is None,
        },
{
}

/// The samples of a channel come in their order, those of one run before those of the next.
pub proof fn gathered_samples_come_in_order(
    a: Seq<DecodeEvent>,
    b: Seq<DecodeEvent>,
    event: DecodeEvent,
    channel: int,
)
    ensures
        gathered(a + b, channel) == gathered(a, channel) + gathered(b, channel),
        gathered(seq![event], channel) == match planes_in(event) {
            Some(planes) => planes[channel],
            None => Seq::<i16>::empty(),
        },
    decreases b.len(),
{
    let none = Seq::<DecodeEvent>::empty();
    assert(seq![event].drop_last() =~= none);
    assert(gathered(none, channel) =~= Seq::<i16>::empty());
    assert(gathered(seq![event], channel) =~= match planes_in(event) {
        Some(planes) => planes[channel],
        None => Seq::<i16>::empty(),
    });
    if b.len() == 0 {
        assert(a + b =~= a);
        assert(gathered(b, channel) =~= Seq::<i16>::empty());
        assert(gathered(a + b, channel) =~= gathered(a, channel) + gathered(b, channel));
    } else {
        gathered_samples_come_in_order(a, b.drop_last(), event, channel);
        assert((a + b).drop_last() =~= a + b.drop_last());
        assert(gathered(a + b, channel) =~= gathered(a, channel) + gathered(b, channel));
    }
}

/// Decoding starts with the first stream that is sound, and takes the packets with its number.
/// A file that cannot be opened is the server's fault, one without sound is the client's.
pub proof fn decoding_starts_with_the_first_sound(
    opened: Result<Seq<StreamInfo>, FfmpegError>,
    eagain: i32,
    k: int,
)
    ensures
        ({
            let (s, step) = decode_started(opened, eagain);
            match opened {
                Err(e) => step == DecodeStep::Finish(
                    Err::<(Seq<Seq<i16>>, u16), EncoderError>(
                        (EncoderError::FfmpegError {
                            msg: "couldn't open file",
                            err: Some(e),
                            user_fault: false,
                        }),
                    ),
                ),
                Ok(streams) => {
                    &&& (forall|j: int| 0 <= j < streams.len() ==> !(#[trigger] streams[j]).audio)
                        ==> step == DecodeStep::Finish(
                        Err::<(Seq<Seq<i16>>, u16), EncoderError>(
                            (EncoderError::FfmpegError {
                                msg: "could not find audio stream",
                                err: None,
                                user_fault: true,
                            }),
                        ),
                    )
                    &&& 0 <= k < streams.len() && k <= usize::MAX && streams[k].audio && (forall|
                        j: int,
                    |
                        0 <= j < k ==> !(#[trigger] streams[j]).audio) ==> {
                        &&& step == (DecodeStep::CreateDecoder { position: k as usize })
                        &&& s.stream == streams[k].index
                        &&& s.eagain == eagain
                        &&& s.phase == Phase::CreatingDecoder
                        &&& s.out.len() == 0
                    }
                },
            }
        }),
{
    if let Ok(streams) = opened {
        first_audio_is_first(streams);
        if 0 <= k < streams.len() && streams[k].audio {
            if let Some(first) = first_audio(streams) {
                if k < first {
                    assert(!streams[k].audio);
                }
                if first < k {
                    assert(streams[first as int].audio);
                }
            }
        }
    }
}

proof fn lemma_end_of_file(start: DecodeState, events: Seq<DecodeEvent>)
    requires
        start.phase == Phase::CreatingDecoder,
        decode_possible(start, events),
    ensures
        ({
            let s = decode_reached(start, events);
            &&& s.phase != Phase::Finished ==> (at_end(s.phase) <==> events.contains(
                DecodeEvent::NoMorePackets,
            ))
            &&& setting_up(s.phase) ==> forall|i: int|
                0 <= i < events.len() ==> !(#[trigger] events[i] matches DecodeEvent::ResamplerCreated(
                    Ok(_),
                ))
            &&& !setting_up(s.phase) && s.phase != Phase::Finished ==> exists|i: int|
                0 <= i < events.len() && (#[trigger] events[i] matches DecodeEvent::ResamplerCreated(
                    Ok(channels),
                ) && s.out.len() == channels) && forall|j: int|
                    0 <= j < events.len() && j != i ==> !(
                    #[trigger] events[j] matches DecodeEvent::ResamplerCreated(Ok(_)))
        }),
    decreases events.len(),
{
    if events.len() > 0 {
        let init = events.drop_last();
        let event = events.last();
        lemma_end_of_file(start, init);
        let before = decode_reached(start, init);
        let s = decode_reached(start, events);
        let n = events.len() - 1;
        assert(events[n] == event);
        assert forall|i: int| 0 <= i < n implies #[trigger] events[i] == init[i] by {}
        if init.contains(DecodeEvent::NoMorePackets) {
            let k = choose|k: int| 0 <= k < init.len() && init[k] == DecodeEvent::NoMorePackets;
            assert(events[k] == DecodeEvent::NoMorePackets);
        }
        if events.contains(DecodeEvent::NoMorePackets) && event != DecodeEvent::NoMorePackets {
            let k = choose|k: int| 0 <= k < events.len() && events[k] == DecodeEvent::NoMorePackets;
            assert(init[k] == DecodeEvent::NoMorePackets);
        }
        if !setting_up(s.phase) && s.phase != Phase::Finished {
            if setting_up(before.phase) {
                assert(event matches DecodeEvent::ResamplerCreated(Ok(channels)) && s.out.len()
                    == channels);
                assert forall|j: int| 0 <= j < events.len() && j != n implies !(
                #[trigger] events[j] matches DecodeEvent::ResamplerCreated(Ok(_))) by {
                    assert(events[j] == init[j]);
                }
            } else {
                let i = choose|i: int|
                    0 <= i < init.len() && (#[trigger] init[i] matches DecodeEvent::ResamplerCreated(
                        Ok(channels),
                    ) && before.out.len() == channels) && forall|j: int|
                        0 <= j < init.len() && j != i ==> !(
                        #[trigger] init[j] matches DecodeEvent::ResamplerCreated(Ok(_)));
                assert(events[i] == init[i]);
                assert forall|j: int| 0 <= j < events.len() && j != i implies !(
                #[trigger] events[j] matches DecodeEvent::ResamplerCreated(Ok(_))) by {
                    if j < n {
                        assert(events[j] == init[j]);
                    }
                }
            }
        }
    }
}

/// The decoder is asked for frames after every packet that was sent and when it is flushed, and
/// no further packet is read until it has said that there is no frame: packets are read when
/// the resampler is there, behind a packet of another stream, and when there is no frame for
/// now, before the end of the file. At the end of the file the decoder is flushed, and when it
/// then has no more frames, the sampling rate is all that is missing.
pub proof fn frames_are_taken_for_every_packet(
    start: DecodeState,
    events: Seq<DecodeEvent>,
    event: DecodeEvent,
)
    requires
        start.phase == Phase::CreatingDecoder,
        decode_possible(start, events.push(event)),
    ensures
        ({
            let step = decode_advanced(decode_reached(start, events), event).1;
            let no_frame = event matches DecodeEvent::Frame(
                FrameEvent::Received { result: Err(e), layout_empty },
            ) && (e.kind is Eof || (e.kind matches FfmpegErrorKind::Other { errno } && errno
                == start.eagain));
            let file_is_read = events.contains(DecodeEvent::NoMorePackets);
            &&& event matches DecodeEvent::PacketSent(Ok(_)) ==> step == DecodeStep::Frame(
                FrameStep::Receive,
            )
            &&& event is DecoderFlushed ==> step == DecodeStep::Frame(FrameStep::Receive)
            &&& step is ReadPacket <==> {
                ||| event matches DecodeEvent::ResamplerCreated(Ok(_))
                ||| event matches DecodeEvent::Packet(stream) && stream != start.stream
                ||| no_frame && !file_is_read
            }
            &&& step is SendPacket <==> (event matches DecodeEvent::Packet(stream) && stream
                == start.stream)
            &&& step is FlushDecoder <==> event is NoMorePackets
            &&& step is ReadRate <==> no_frame && file_is_read
        }),
{
    assert(events.push(event).drop_last() =~= events);
    lemma_decode_invariant(start, events);
    lemma_end_of_file(start, events);
}

/// Every frame goes through the resampler, as stereo if it does not say what it is; then
/// everything is fetched that the resampler holds back, and only then the next frame.
pub proof fn frames_are_resampled_whole(
    start: DecodeState,
    events: Seq<DecodeEvent>,
    event: DecodeEvent,
)
    requires
        start.phase == Phase::CreatingDecoder,
        decode_possible(start, events.push(event)),
    ensures
        ({
            let step = decode_advanced(decode_reached(start, events), event).1;
            match event {
                DecodeEvent::Frame(FrameEvent::Received { result: Ok(_), layout_empty }) => step
                    == DecodeStep::Frame(FrameStep::Resample { assume_stereo: layout_empty }),
                DecodeEvent::Frame(FrameEvent::Resampled { delay: Ok(more), planes })
                | DecodeEvent::Frame(FrameEvent::Flushed { delay: Ok(more), planes }) => step
                    == DecodeStep::Frame(
                    if more {
                        FrameStep::Flush
                    } else {
                        FrameStep::Receive
                    },
                ),
                DecodeEvent::DecoderCreated(Ok(_)) => step is OpenAudioDecoder,
                DecodeEvent::AudioDecoderOpened(Ok(layout_empty)) => step == (
                DecodeStep::CreateResampler { assume_stereo: layout_empty }),
                _ => !(step is OpenAudioDecoder) && !(step is CreateResampler) && !(
                step matches DecodeStep::Frame(FrameStep::Resample { .. })),
            }
        }),
{
    assert(events.push(event).drop_last() =~= events);
    lemma_decode_invariant(start, events);
}

/// Whatever fails on the way ends the decoding, with the error of the media library and the
/// words for what was being done. Only a stream for which there is no decoder is the client's
/// fault.
pub proof fn decoding_fails_with_its_error(
    start: DecodeState,
    events: Seq<DecodeEvent>,
    event: DecodeEvent,
)
    requires
        start.phase == Phase::CreatingDecoder,
        decode_possible(start, events.push(event)),
    ensures
        ({
            let what = match event {
                DecodeEvent::DecoderCreated(Err(e)) => Some(("could not create decoder", e, true)),
                DecodeEvent::AudioDecoderOpened(Err(e)) => Some(("not an audio decoder", e, false)),
                DecodeEvent::ResamplerCreated(Err(e)) => Some(("can't create resampler", e, false)),
                DecodeEvent::PacketSent(Err(e)) => Some(
                    ("sending packet to decoder failed", e, false),
                ),
                DecodeEvent::Frame(FrameEvent::Received { result: Err(e), layout_empty }) => if e.kind
                    is Eof || (e.kind matches FfmpegErrorKind::Other { errno } && errno
                    == start.eagain) {
                    None
                } else {
                    Some(("receive failed", e, false))
                },
                DecodeEvent::Frame(FrameEvent::Resampled { delay: Err(e), planes }) => Some(
                    ("resampler failed", e, false),
                ),
                DecodeEvent::Frame(FrameEvent::Flushed { delay: Err(e), planes }) => Some(
                    ("flush failed", e, false),
                ),
                _ => None,
            };
            let step = decode_advanced(decode_reached(start, events), event).1;
            match what {
                Some((msg, e, user_fault)) => step == DecodeStep::Finish(
                    Err::<(Seq<Seq<i16>>, u16), EncoderError>(
                        (EncoderError::FfmpegError { msg, err: Some(e), user_fault }),
                    ),
                ),
                None => !(step matches DecodeStep::Finish(Err(_))),
            }
        }),
{
    assert(events.push(event).drop_last() =~= events);
    lemma_decode_invariant(start, events);
}

/// A decoded song has as many channels as the resampler was made for, each with all samples
/// that came out of the resampler for it, and the sampling rate in sixteen bits. There is a
/// song exactly when the rate is known.
pub proof fn decoded_song_is_whole(start: DecodeState, events: Seq<DecodeEvent>, event: DecodeEvent)
    requires
        start.phase == Phase::CreatingDecoder,
        decode_possible(start, events.push(event)),
    ensures
        ({
            let step = decode_advanced(decode_reached(start, events), event).1;
            &&& (step matches DecodeStep::Finish(Ok(_))) <==> event is Rate
            &&& event matches DecodeEvent::Rate(rate) ==> (step matches DecodeStep::Finish(
                Ok((song, sampling_rate)),
            ) && {
                &&& sampling_rate as int == rate as int % 65536
                &&& exists|i: int|
                    0 <= i < events.len() && (
                    #[trigger] events[i] matches DecodeEvent::ResamplerCreated(Ok(channels))
                        && song.len() == channels)
                &&& forall|c: int|
                    0 <= c < song.len() ==> #[trigger] song[c] == gathered(events, c)
            })
        }),
{
    assert(events.push(event).drop_last() =~= events);
    lemma_decode_invariant(start, events);
    lemma_end_of_file(start, events);
}

/// What may happen first, and what may happen next: a decoder is made or not, and after that
/// an event answers what was asked for last. The resampler gives out one plane for each channel
/// for which it was made.
pub proof fn decode_events_answer_what_was_asked(
    start: DecodeState,
    events: Seq<DecodeEvent>,
    last: DecodeEvent,
    next: DecodeEvent,
)
    requires
        start.phase == Phase::CreatingDecoder,
        decode_possible(start, events.push(last)),
    ensures
        decode_possible(start, seq![next]) <==> next is DecoderCreated,
        ({
            let step = decode_advanced(decode_reached(start, events), last).1;
            let channels = decode_reached(start, events.push(last)).out.len();
            decode_possible(start, events.push(last).push(next)) <==> match next {
                DecodeEvent::DecoderCreated(_) => false,
                DecodeEvent::AudioDecoderOpened(_) => step is OpenAudioDecoder,
                DecodeEvent::ResamplerCreated(_) => step is CreateResampler,
                DecodeEvent::Packet(_) | DecodeEvent::NoMorePackets => step is ReadPacket,
                DecodeEvent::PacketSent(_) => step is SendPacket,
                DecodeEvent::DecoderFlushed => step is FlushDecoder,
                DecodeEvent::Rate(_) => step is ReadRate,
                DecodeEvent::Frame(FrameEvent::Received { .. }) => step == DecodeStep::Frame(
                    FrameStep::Receive,
                ),
                DecodeEvent::Frame(FrameEvent::Resampled { delay, planes }) => (
                step matches DecodeStep::Frame(FrameStep::Resample { .. })) && (delay is Ok
                    ==> planes@.len() == channels),
                DecodeEvent::Frame(FrameEvent::Flushed { delay, planes }) => step
                    == DecodeStep::Frame(FrameStep::Flush) && (delay is Ok ==> planes@.len()
                    == channels),
            }
        }),
{
    let all = events.push(last);
    let none = Seq::<DecodeEvent>::empty();
    assert(all.drop_last() =~= events);
    assert(all.push(next).drop_last() =~= all);
    assert(seq![next].drop_last() =~= none);
    assert(decode_possible(start, none));
    assert(decode_reached(start, none) == start);
}

/// What is asked for is viewed as what it is, and a song as its samples and its rate.
pub proof fn decode_actions_are_viewed_as_they_are(action: DecodeAction)
    ensures
        match action {
            DecodeAction::CreateDecoder { position } => action@ == (DecodeStep::CreateDecoder {
                position,
            }),
            DecodeAction::OpenAudioDecoder => action@ is OpenAudioDecoder,
            DecodeAction::CreateResampler { assume_stereo } => action@ == (
            DecodeStep::CreateResampler { assume_stereo }),
            DecodeAction::ReadPacket => action@ is ReadPacket,
            DecodeAction::SendPacket => action@ is SendPacket,
            DecodeAction::FlushDecoder => action@ is FlushDecoder,
            DecodeAction::Frame(step) => action@ == DecodeStep::Frame(step),
            DecodeAction::ReadRate => action@ is ReadRate,
            DecodeAction::Finish(Err(e)) => action@ == DecodeStep::Finish(
                Err::<(Seq<Seq<i16>>, u16), EncoderError>(e),
            ),
            DecodeAction::Finish(Ok((channels, rate))) => {
                &&& action@ matches DecodeStep::Finish(Ok((song, sampling_rate)))
                &&& sampling_rate == rate
                &&& song.len() == channels@.len()
                &&& forall|c: int| 0 <= c < song.len() ==> #[trigger] song[c] == channels@[c]@
            },
        },
{
}

/// The position of the first stream that is sound.
fn find_audio(streams: &Vec<StreamInfo>) -> (position: Option<usize>)
    ensures
        match position {
            Some(k) => first_audio(streams@) == Some(k as nat) && k < streams@.len(),
            None => first_audio(streams@) is None,
        },
{
    let mut i: usize = 0;
    assert(streams@.skip(0) =~= streams@);
    while i < streams.len()
        invariant
            i <= streams@.len(),
            first_audio(streams@) == match first_audio(streams@.skip(i as int)) {
                Some(k) => Some(k + i as nat),
                None => None,
            },
        decreases streams@.len() - i,
    {
        if streams[i].audio {
            return Some(i);
        }
        assert(streams@.skip(i as int).drop_first() =~= streams@.skip(i + 1));
        i += 1;
    }
    None
}

/// The decoding of a song, from the opened file to its samples.
pub struct Decoding {
    eagain: i32,
    stream: usize,
    phase: Phase,
    channels: Vec<Vec<i16>>,
}

impl View for Decoding {
    type V = DecodeState;

    closed spec fn view(&self) -> DecodeState {
        DecodeState {
            eagain: self.eagain,
            stream: self.stream,
            phase: self.phase,
            out: samples_of(self.channels@),
        }
    }
}

/// What opening a file has come to, as the contracts speak of it.
pub open spec fn streams_of(opened: Result<Vec<StreamInfo>, FfmpegError>) -> Result<
    Seq<StreamInfo>,
    FfmpegError,
> {
    match opened {
        Ok(streams) => Ok(streams@),
        Err(e) => Err(e),
    }
}

/// Starts to decode a song, once the attempt to open its file has come to something.
pub fn decode_channels(opened: Result<Vec<StreamInfo>, FfmpegError>, eagain: i32) -> (started: (
    Decoding,
    DecodeAction,
))
    ensures
        (started.0@, started.1@) == decode_started(streams_of(opened), eagain),
{
    let mut decoding = Decoding {
        eagain,
        stream: 0,
        phase: Phase::CreatingDecoder,
        channels: Vec::new(),
    };
    assert(samples_of(decoding.channels@) =~= Seq::<Seq<i16>>::empty());
    match opened.context("couldn't open file", false) {
        Ok(streams) => match find_audio(&streams) {
            Some(position) => {
                decoding.stream = streams[position].index;
                (decoding, DecodeAction::CreateDecoder { position })
            },
            None => {
                decoding.phase = Phase::Finished;
                let error = EncoderError::FfmpegError {
                    msg: "could not find audio stream",
                    err: None,
                    user_fault: true,
                };
                (decoding, DecodeAction::Finish(Err(error)))
            },
        },
        Err(e) => {
            decoding.phase = Phase::Finished;
            (decoding, DecodeAction::Finish(Err(e)))
        },
    }
}

impl Decoding {
    /// Ends with a failure.
    fn fail(&mut self, error: EncoderError) -> (action: DecodeAction)
        ensures
            (final(self)@, action@) == decode_failed(old(self)@, error),
    {
        self.phase = Phase::Finished;
        DecodeAction::Finish(Err(error))
    }

    /// Sets out as many channels, all empty.
    fn set_out(&mut self, channels: u16)
        ensures
            final(self)@ == (DecodeState {
                out: Seq::new(channels as nat, |c: int| Seq::<i16>::empty()),
                ..old(self)@
            }),
    {
        let mut all: Vec<Vec<i16>> = Vec::new();
        let mut i: u16 = 0;
        while i < channels
            invariant
                i <= channels,
                all@.len() == i,
                forall|j: int| 0 <= j < i ==> (#[trigger] all@[j])@ == Seq::<i16>::empty(),
            decreases channels - i,
        {
            all.push(Vec::new());
            i += 1;
        }
        self.channels = all;
        assert(samples_of(self.channels@) =~= Seq::new(
            channels as nat,
            |c: int| Seq::<i16>::empty(),
        ));
    }

    /// Takes note of what has happened and says what to do next.
    pub fn decode_channels_from_input(&mut self, event: DecodeEvent) -> (action: DecodeAction)
        requires
            decode_expected(old(self)@, event),
        ensures
            (final(self)@, action@) == decode_advanced(old(self)@, event),
    {
        match event {
            DecodeEvent::DecoderCreated(result) => match result.context(
                "could not create decoder",
                true,
            ) {
                Ok(()) => {
                    self.phase = Phase::OpeningDecoder;
                    DecodeAction::OpenAudioDecoder
                },
                Err(e) => self.fail(e),
            },
            DecodeEvent::AudioDecoderOpened(result) => match result.context(
                "not an audio decoder",
                false,
            ) {
                Ok(layout_empty) => {
                    self.phase = Phase::CreatingResampler;
                    DecodeAction::CreateResampler { assume_stereo: layout_empty }
                },
                Err(e) => self.fail(e),
            },
            DecodeEvent::ResamplerCreated(result) => match result.context(
                "can't create resampler",
                false,
            ) {
                Ok(channels) => {
                    self.set_out(channels);
                    self.phase = Phase::ReadingPacket;
                    DecodeAction::ReadPacket
                },
                Err(e) => self.fail(e),
            },
            DecodeEvent::Packet(stream) => if stream == self.stream {
                self.phase = Phase::SendingPacket;
                DecodeAction::SendPacket
            } else {
                DecodeAction::ReadPacket
            },
            DecodeEvent::NoMorePackets => {
                self.phase = Phase::FlushingDecoder;
                DecodeAction::FlushDecoder
            },
            DecodeEvent::PacketSent(result) => match result.context(
                "sending packet to decoder failed",
                false,
            ) {
                Ok(()) => {
                    self.phase = Phase::Receiving { draining: false };
                    DecodeAction::Frame(FrameStep::Receive)
                },
                Err(e) => self.fail(e),
            },
            DecodeEvent::DecoderFlushed => {
                self.phase = Phase::Receiving { draining: true };
                DecodeAction::Frame(FrameStep::Receive)
            },
            DecodeEvent::Frame(frame) => {
                let draining = match self.phase {
                    Phase::Receiving { draining } => draining,
                    Phase::Resampling { draining } => draining,
                    Phase::FlushingResampler { draining } => draining,
                    _ => false,
                };
                match receive_decoded_frames(frame, self.eagain, &mut self.channels) {
                    Ok(FrameStep::Done) => if draining {
                        self.phase = Phase::ReadingRate;
                        DecodeAction::ReadRate
                    } else {
                        self.phase = Phase::ReadingPacket;
                        DecodeAction::ReadPacket
                    },
                    Ok(step) => {
                        self.phase = match step {
                            FrameStep::Resample { .. } => Phase::Resampling { draining },
                            FrameStep::Flush => Phase::FlushingResampler { draining },
                            _ => Phase::Receiving { draining },
                        };
                        DecodeAction::Frame(step)
                    },
                    Err(e) => self.fail(e),
                }
            },
            DecodeEvent::Rate(rate) => {
                let mut channels: Vec<Vec<i16>> = Vec::new();
                std::mem::swap(&mut channels, &mut self.channels);
                assert(samples_of(self.channels@) =~= Seq::<Seq<i16>>::empty());
                self.phase = Phase::Finished;
                DecodeAction::Finish(Ok((channels, (rate % 0x1_0000) as u16)))
            },
        }
    }
}

/// The samples of each plane go behind those of its channel, all of them and in their order.
pub proof fn planes_go_behind_their_channels(
    planes: &Vec<Vec<i16>>,
    out: &mut Vec<Vec<i16>>,
    result: Result<(), EncoderError>,
)
    requires
        call_ensures(send_to_encode, (planes, out), result),
        planes@.len() == old(out)@.len(),
    ensures
        result is Ok,
        final(out)@.len() == old(out)@.len(),
        forall|c: int|
            0 <= c < old(out)@.len() ==> (#[trigger] final(out)@[c])@ == old(out)@[c]@
                + planes@[c]@,
{
    let all = samples_of(old(out)@);
    let more = samples_of(planes@);
    let after = samples_of(final(out)@);
    assert(after.len() == all.len());
    assert forall|c: int| 0 <= c < old(out)@.len() implies (#[trigger] final(out)@[c])@ == old(
        out,
    )@[c]@ + planes@[c]@ by {
        assert(after[c] == final(out)@[c]@);
        assert(all[c] == old(out)@[c]@);
        assert(more[c] == planes@[c]@);
    }
}

/// There is a frame if the decoder gave one, there is none if it has come to its end or asks to
/// be tried again later, and any other error is passed on.
pub proof fn answers_of_the_decoder_are_told(
    res: Result<(), FfmpegError>,
    eagain: i32,
    more: Result<bool, EncoderError>,
)
    requires
        call_ensures(map_receive_result, (res, eagain), more),
    ensures
        match res {
            Ok(_) => more == Ok::<bool, EncoderError>(true),
            Err(e) => if e.kind is Eof || (e.kind matches FfmpegErrorKind::Other { errno } && errno
                == eagain) {
                more == Ok::<bool, EncoderError>(false)
            } else {
                more matches Err(EncoderError::FfmpegError { msg, err: Some(err), user_fault })
                    && msg == "receive failed" && err == e && !user_fault
            },
        },
{
}

/// All that the resampler gives out goes to the channels, and what it holds back is fetched
/// before the next frame is.
pub proof fn frame_events_are_answered(
    event: FrameEvent,
    eagain: i32,
    out: &mut Vec<Vec<i16>>,
    step: Result<FrameStep, EncoderError>,
)
    requires
        call_ensures(receive_decoded_frames, (event, eagain, out), step),
        frame_planes(event) matches Some(planes) ==> planes.len() == old(out)@.len(),
    ensures
        final(out)@.len() == old(out)@.len(),
        match event {
            FrameEvent::Received { result, layout_empty } => {
                &&& forall|c: int|
                    0 <= c < old(out)@.len() ==> (#[trigger] final(out)@[c])@ == old(out)@[c]@
                &&& result is Ok ==> step == Ok::<FrameStep, EncoderError>(
                    FrameStep::Resample { assume_stereo: layout_empty },
                )
                &&& step == Ok::<FrameStep, EncoderError>(FrameStep::Done) <==> (
                result matches Err(e) && (e.kind is Eof || (
                e.kind matches FfmpegErrorKind::Other { errno } && errno == eagain)))
            },
            FrameEvent::Resampled { delay, planes } | FrameEvent::Flushed { delay, planes } => {
                &&& step is Ok <==> delay is Ok
                &&& delay matches Ok(more) ==> step == Ok::<FrameStep, EncoderError>(
                    if more {
                        FrameStep::Flush
                    } else {
                        FrameStep::Receive
                    },
                )
                &&& forall|c: int|
                    0 <= c < old(out)@.len() ==> (#[trigger] final(out)@[c])@ == if delay is Ok {
                        old(out)@[c]@ + planes@[c]@
                    } else {
                        old(out)@[c]@
                    }
            },
        },
{
    let all = samples_of(old(out)@);
    let after = samples_of(final(out)@);
    assert(after == frame_out(event, all));
    assert(after.len() == all.len());
    assert forall|c: int| 0 <= c < old(out)@.len() implies (#[trigger] final(out)@[c])@ == after[c]
        && all[c] == old(out)@[c]@ by {}
    match event {
        FrameEvent::Resampled { delay, planes } | FrameEvent::Flushed { delay, planes } => {
            assert forall|c: int| 0 <= c < old(out)@.len() implies (#[trigger] final(out)@[c])@
                == if delay is Ok {
                old(out)@[c]@ + planes@[c]@
            } else {
                old(out)@[c]@
            } by {
                assert(after[c] == final(out)@[c]@);
                if delay is Ok {
                    assert(samples_of(planes@)[c] == planes@[c]@);
                }
            }
        },
        _ => {},
    }
}

/// The decoding of a song starts with its file and goes through its runs event by event: it
/// asks for what the event asks for, and has come as far as the event leads.
pub proof fn decoding_goes_through_its_runs(
    opened: Result<Vec<StreamInfo>, FfmpegError>,
    eagain: i32,
    first: (Decoding, DecodeAction),
    decoding: &mut Decoding,
    events: Seq<DecodeEvent>,
    event: DecodeEvent,
    action: DecodeAction,
)
    requires
        call_ensures(decode_channels, (opened, eagain), first),
        call_ensures(Decoding::decode_channels_from_input, (decoding, event), action),
        old(decoding)@ == decode_reached(first.0@, events),
    ensures
        match opened {
            Ok(streams) => (first.0@, first.1@) == decode_started(Ok(streams@), eagain),
            Err(e) => (first.0@, first.1@) == decode_started(Err(e), eagain),
        },
        final(decoding)@ == decode_reached(first.0@, events.push(event)),
        action@ == decode_advanced(decode_reached(first.0@, events), event).1,
{
    assert(events.push(event).drop_last() =~= events);
}

} // verus!
