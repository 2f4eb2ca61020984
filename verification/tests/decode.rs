use looper::error::{EncoderError, FfmpegError, FfmpegErrorKind};
use looper::ffmpeg::{
    decode_channels, map_receive_result, receive_decoded_frames, send_to_encode, DecodeAction, DecodeEvent,
    Decoding, FrameEvent, FrameStep, StreamInfo,
};

const EAGAIN: i32 = 11;

fn error(kind: FfmpegErrorKind) -> FfmpegError {
    FfmpegError { kind, text: "broken".to_string() }
}

fn failed() -> FfmpegError {
    error(FfmpegErrorKind::Failure)
}

fn again() -> Result<(), FfmpegError> {
    Err(error(FfmpegErrorKind::Other { errno: EAGAIN }))
}

fn failure(action: DecodeAction) -> (&'static str, Option<String>, bool) {
    match action {
        DecodeAction::Finish(Err(EncoderError::FfmpegError { msg, err, user_fault })) => {
            (msg, err.map(|e| e.text), user_fault)
        }
        other => panic!("{other:?}"),
    }
}

fn broken(msg: &'static str, user_fault: bool) -> (&'static str, Option<String>, bool) {
    (msg, Some("broken".to_string()), user_fault)
}

fn streams() -> Vec<StreamInfo> {
    vec![
        StreamInfo { index: 5, audio: false },
        StreamInfo { index: 8, audio: true },
        StreamInfo { index: 9, audio: true },
    ]
}

fn started() -> Decoding {
    let (decoding, action) = decode_channels(Ok(streams()), EAGAIN);
    assert!(matches!(action, DecodeAction::CreateDecoder { position: 1 }));
    decoding
}

fn reading(channels: u16) -> Decoding {
    let mut d = started();
    assert!(matches!(
        d.decode_channels_from_input(DecodeEvent::DecoderCreated(Ok(()))),
        DecodeAction::OpenAudioDecoder
    ));
    assert!(matches!(
        d.decode_channels_from_input(DecodeEvent::AudioDecoderOpened(Ok(true))),
        DecodeAction::CreateResampler { assume_stereo: true }
    ));
    assert!(matches!(
        d.decode_channels_from_input(DecodeEvent::ResamplerCreated(Ok(channels))),
        DecodeAction::ReadPacket
    ));
    d
}

fn receiving(channels: u16) -> Decoding {
    let mut d = reading(channels);
    assert!(matches!(d.decode_channels_from_input(DecodeEvent::Packet(8)), DecodeAction::SendPacket));
    assert!(matches!(
        d.decode_channels_from_input(DecodeEvent::PacketSent(Ok(()))),
        DecodeAction::Frame(FrameStep::Receive)
    ));
    d
}

fn frame(d: &mut Decoding, event: FrameEvent) -> DecodeAction {
    d.decode_channels_from_input(DecodeEvent::Frame(event))
}

#[test]
fn answers_of_the_decoder() {
    assert!(matches!(map_receive_result(Ok(()), EAGAIN), Ok(true)));
    assert!(matches!(map_receive_result(again(), EAGAIN), Ok(false)));
    assert!(matches!(map_receive_result(Err(error(FfmpegErrorKind::Eof)), EAGAIN), Ok(false)));
    for kind in [FfmpegErrorKind::Failure, FfmpegErrorKind::Other { errno: 12 }] {
        match map_receive_result(Err(error(kind)), EAGAIN) {
            Err(EncoderError::FfmpegError { msg, err: Some(e), user_fault }) => {
                assert_eq!(msg, "receive failed");
                assert_eq!(e.kind, kind);
                assert!(!user_fault);
            }
            other => panic!("{other:?}"),
        }
    }
}

#[test]
fn planes_go_to_their_channels() {
    let mut out = vec![vec![1, 2], vec![-1]];
    assert!(send_to_encode(&vec![vec![3, 4], vec![]], &mut out).is_ok());
    assert_eq!(out, vec![vec![1, 2, 3, 4], vec![-1]]);
}

#[test]
fn frames_are_resampled_until_nothing_is_held_back() {
    let mut out = vec![vec![], vec![]];
    let event = FrameEvent::Received { result: Ok(()), layout_empty: true };
    assert!(matches!(
        receive_decoded_frames(event, EAGAIN, &mut out),
        Ok(FrameStep::Resample { assume_stereo: true })
    ));
    let event = FrameEvent::Resampled { delay: Ok(true), planes: vec![vec![1], vec![2]] };
    assert!(matches!(receive_decoded_frames(event, EAGAIN, &mut out), Ok(FrameStep::Flush)));
    let event = FrameEvent::Flushed { delay: Ok(false), planes: vec![vec![3], vec![4]] };
    assert!(matches!(receive_decoded_frames(event, EAGAIN, &mut out), Ok(FrameStep::Receive)));
    let event = FrameEvent::Received { result: again(), layout_empty: false };
    assert!(matches!(receive_decoded_frames(event, EAGAIN, &mut out), Ok(FrameStep::Done)));
    assert_eq!(out, vec![vec![1, 3], vec![2, 4]]);
}

#[test]
fn a_song_is_decoded() {
    let mut d = reading(2);
    assert!(matches!(d.decode_channels_from_input(DecodeEvent::Packet(9)), DecodeAction::ReadPacket));
    assert!(matches!(d.decode_channels_from_input(DecodeEvent::Packet(8)), DecodeAction::SendPacket));
    assert!(matches!(
        d.decode_channels_from_input(DecodeEvent::PacketSent(Ok(()))),
        DecodeAction::Frame(FrameStep::Receive)
    ));
    assert!(matches!(
        frame(&mut d, FrameEvent::Received { result: Ok(()), layout_empty: false }),
        DecodeAction::Frame(FrameStep::Resample { assume_stereo: false })
    ));
    assert!(matches!(
        frame(&mut d, FrameEvent::Resampled { delay: Ok(false), planes: vec![vec![1, 2], vec![3, 4]] }),
        DecodeAction::Frame(FrameStep::Receive)
    ));
    assert!(matches!(
        frame(&mut d, FrameEvent::Received { result: again(), layout_empty: false }),
        DecodeAction::ReadPacket
    ));
    assert!(matches!(d.decode_channels_from_input(DecodeEvent::NoMorePackets), DecodeAction::FlushDecoder));
    assert!(matches!(
        d.decode_channels_from_input(DecodeEvent::DecoderFlushed),
        DecodeAction::Frame(FrameStep::Receive)
    ));
    assert!(matches!(
        frame(&mut d, FrameEvent::Received { result: Ok(()), layout_empty: false }),
        DecodeAction::Frame(FrameStep::Resample { .. })
    ));
    assert!(matches!(
        frame(&mut d, FrameEvent::Resampled { delay: Ok(true), planes: vec![vec![5], vec![6]] }),
        DecodeAction::Frame(FrameStep::Flush)
    ));
    assert!(matches!(
        frame(&mut d, FrameEvent::Flushed { delay: Ok(false), planes: vec![vec![7], vec![8]] }),
        DecodeAction::Frame(FrameStep::Receive)
    ));
    let eof = Err(error(FfmpegErrorKind::Eof));
    assert!(matches!(
        frame(&mut d, FrameEvent::Received { result: eof, layout_empty: false }),
        DecodeAction::ReadRate
    ));
    match d.decode_channels_from_input(DecodeEvent::Rate(44100)) {
        DecodeAction::Finish(Ok((channels, rate))) => {
            assert_eq!(channels, vec![vec![1, 2, 5, 7], vec![3, 4, 6, 8]]);
            assert_eq!(channels[0].len(), channels[1].len());
            assert_eq!(rate, 44100);
        }
        other => panic!("{other:?}"),
    }
}

#[test]
fn a_rate_keeps_its_lower_bits() {
    let mut d = reading(1);
    d.decode_channels_from_input(DecodeEvent::NoMorePackets);
    d.decode_channels_from_input(DecodeEvent::DecoderFlushed);
    frame(&mut d, FrameEvent::Received { result: again(), layout_empty: false });
    match d.decode_channels_from_input(DecodeEvent::Rate(96000)) {
        DecodeAction::Finish(Ok((channels, rate))) => {
            assert_eq!(channels, vec![Vec::<i16>::new()]);
            assert_eq!(rate, 96000u32 as u16);
            assert_eq!(rate, 30464);
        }
        other => panic!("{other:?}"),
    }
}

#[test]
fn a_file_must_open_and_have_sound() {
    let (_, action) = decode_channels(Err(failed()), EAGAIN);
    assert_eq!(failure(action), broken("couldn't open file", false));
    let (_, action) = decode_channels(Ok(vec![StreamInfo { index: 0, audio: false }]), EAGAIN);
    assert_eq!(failure(action), ("could not find audio stream", None, true));
    let (_, action) = decode_channels(Ok(vec![]), EAGAIN);
    assert_eq!(failure(action), ("could not find audio stream", None, true));
}

#[test]
fn setting_up_can_fail() {
    let action = started().decode_channels_from_input(DecodeEvent::DecoderCreated(Err(failed())));
    assert_eq!(failure(action), broken("could not create decoder", true));
    let mut d = started();
    d.decode_channels_from_input(DecodeEvent::DecoderCreated(Ok(())));
    let action = d.decode_channels_from_input(DecodeEvent::AudioDecoderOpened(Err(failed())));
    assert_eq!(failure(action), broken("not an audio decoder", false));
    let mut d = started();
    d.decode_channels_from_input(DecodeEvent::DecoderCreated(Ok(())));
    d.decode_channels_from_input(DecodeEvent::AudioDecoderOpened(Ok(false)));
    let action = d.decode_channels_from_input(DecodeEvent::ResamplerCreated(Err(failed())));
    assert_eq!(failure(action), broken("can't create resampler", false));
}

#[test]
fn decoding_can_fail() {
    let mut d = reading(2);
    d.decode_channels_from_input(DecodeEvent::Packet(8));
    let action = d.decode_channels_from_input(DecodeEvent::PacketSent(Err(failed())));
    assert_eq!(failure(action), broken("sending packet to decoder failed", false));
    let action = frame(&mut receiving(2), FrameEvent::Received { result: Err(failed()), layout_empty: false });
    assert_eq!(failure(action), broken("receive failed", false));
    let mut d = receiving(2);
    frame(&mut d, FrameEvent::Received { result: Ok(()), layout_empty: false });
    let action = frame(&mut d, FrameEvent::Resampled { delay: Err(failed()), planes: vec![] });
    assert_eq!(failure(action), broken("resampler failed", false));
    let mut d = receiving(2);
    frame(&mut d, FrameEvent::Received { result: Ok(()), layout_empty: false });
    frame(&mut d, FrameEvent::Resampled { delay: Ok(true), planes: vec![vec![1], vec![1]] });
    let action = frame(&mut d, FrameEvent::Flushed { delay: Err(failed()), planes: vec![] });
    assert_eq!(failure(action), broken("flush failed", false));
}
