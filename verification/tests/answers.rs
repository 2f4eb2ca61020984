use brstm::encoder::EncodingError;
use looper::error::{EncoderError, ErrorResponse, FfmpegError, FfmpegErrorExt, FfmpegErrorKind, UploadError};
use looper::server::{health, listen_address};

fn parts(response: ErrorResponse) -> (u16, Option<String>) {
    (response.status, response.body)
}

fn answer(status: u16, body: &str) -> (u16, Option<String>) {
    (status, Some(body.to_string()))
}

fn ffmpeg_error(text: &str) -> FfmpegError {
    FfmpegError { kind: FfmpegErrorKind::Failure, text: text.to_string() }
}

#[test]
fn upload_errors_are_answered() {
    assert_eq!(parts(UploadError::Internal.into_response()), (500, None));
    assert_eq!(parts(UploadError::Timeout.into_response()), (408, None));
    assert_eq!(
        parts(UploadError::TooBig(15728641).into_response()),
        answer(422, "Send Size (15728641 bytes) exceeds limit of 15MiB!")
    );
}

#[test]
fn decoding_errors_are_answered() {
    let error = EncoderError::FfmpegError { msg: "could not find audio stream", err: None, user_fault: true };
    assert_eq!(parts(error.into_response()), answer(400, "could not find audio stream"));
    let error = EncoderError::FfmpegError {
        msg: "couldn't open file",
        err: Some(ffmpeg_error("No such file or directory")),
        user_fault: false,
    };
    assert_eq!(parts(error.into_response()), answer(500, "couldn't open file: No such file or directory"));
}

#[test]
fn encoding_errors_are_answered() {
    let error = EncoderError::EncodingError(EncodingError::UnevenChannelCount(3));
    assert_eq!(
        parts(error.into_response()),
        answer(400, "encode failed: Only stereo is supported, but channel count 3 isn't divisible by 2")
    );
    let error = EncoderError::Custom("disk on fire".to_string());
    assert_eq!(parts(error.into_response()), answer(500, "disk on fire"));
}

#[test]
fn upload_errors_can_be_encoder_errors() {
    let error = EncoderError::from(UploadError::Timeout);
    assert!(matches!(error, EncoderError::UploadError(UploadError::Timeout)));
    assert_eq!(parts(error.into_response()), (408, None));
}

#[test]
fn errors_get_context() {
    let fine: Result<u8, FfmpegError> = Ok(7);
    assert!(matches!(fine.context("reading", true), Ok(7)));
    let failed: Result<u8, FfmpegError> = Err(ffmpeg_error("why"));
    match failed.context("reading", true) {
        Err(EncoderError::FfmpegError { msg, err: Some(err), user_fault }) => {
            assert_eq!(msg, "reading");
            assert_eq!(err.text, "why");
            assert!(user_fault);
        }
        other => panic!("{other:?}"),
    }
}

#[test]
fn the_server_listens() {
    assert_eq!(listen_address(None), "0.0.0.0:3000");
    assert_eq!(listen_address(Some("8080")), "0.0.0.0:8080");
    assert_eq!(health(), "ok");
}
