//! The ways in which a request fails, and what is answered then.

use brstm::encoder::EncodingError;
use vstd::prelude::*;

use crate::brstm_codec::describe_encoding_error;
use crate::brstm_codec::encoding_error_text;
use crate::decimal::decimal;
use crate::decimal::push_decimal;

verus! {

/// Status of an answer to a request that cannot be understood.
pub const BAD_REQUEST: u16 = 400;

/// Status of an answer to a request that took too long to arrive.
pub const REQUEST_TIMEOUT: u16 = 408;

/// Status of an answer to a request whose content is not accepted.
pub const UNPROCESSABLE_ENTITY: u16 = 422;

/// Status of an answer when the fault is the server's own.
pub const INTERNAL_SERVER_ERROR: u16 = 500;

/// What a failed request is answered: a status, and a sentence unless the status says it all.
#[derive(Debug)]
pub struct ErrorResponse {
    pub status: u16,
    pub body: Option<String>,
}

impl ErrorResponse {
    /// The answer has this status and this body.
    pub open spec fn says(&self, status: u16, body: Option<Seq<char>>) -> bool {
        &&& self.status == status
        &&& match self.body {
            Some(text) => body == Some(text@),
            None => body is None,
        }
    }
}

/// Why an upload is not taken.
#[derive(Debug, Clone, Copy, PartialEq, Eq, Structural)]
pub enum UploadError {
    TooBig(u64),
    Internal,
    Timeout,
}

impl UploadError {
    /// The status that tells of the failure.
    pub open spec fn status(self) -> u16 {
        match self {
            UploadError::Internal => INTERNAL_SERVER_ERROR,
            UploadError::TooBig(_) => UNPROCESSABLE_ENTITY,
            UploadError::Timeout => REQUEST_TIMEOUT,
        }
    }

    /// The sentence that tells of the failure.
    pub open spec fn sentence(self) -> Option<Seq<char>> {
        match self {
            UploadError::TooBig(size) => Some(
                "Send Size ("@ + decimal(size as nat) + " bytes) exceeds limit of 15MiB!"@,
            ),
            _ => None,
        }
    }

    /// What a client is answered whose upload is not taken.
    pub fn into_response(self) -> (response: ErrorResponse)
        ensures
            response.says(self.status(), self.sentence()),
    {
        match self {
            UploadError::Internal => ErrorResponse { status: INTERNAL_SERVER_ERROR, body: None },
            UploadError::TooBig(size) => {
                let mut body = String::new();
                body.append("Send Size (");
                push_decimal(&mut body, size);
                body.append(" bytes) exceeds limit of 15MiB!");
                assert(body@ =~= self.sentence()->0);
                ErrorResponse { status: UNPROCESSABLE_ENTITY, body: Some(body) }
            },
            UploadError::Timeout => ErrorResponse { status: REQUEST_TIMEOUT, body: None },
        }
    }
}

/// What kind of error the media library reports.
#[derive(Debug, Clone, Copy, PartialEq, Eq, Structural)]
pub enum FfmpegErrorKind {
    /// The end of the stream.
    Eof,
    /// An error number of the operating system.
    Other { errno: i32 },
    /// Any other error.
    Failure,
}

/// An error that the media library reports, with the words in which it does.
#[derive(Debug)]
pub struct FfmpegError {
    pub kind: FfmpegErrorKind,
    pub text: String,
}

/// Why a song is not encoded.
#[derive(Debug)]
pub enum EncoderError {
    FfmpegError { msg: &'static str, err: Option<FfmpegError>, user_fault: bool },
    UploadError(UploadError),
    EncodingError(EncodingError),
    Custom(String),
}

impl EncoderError {
    /// The status that tells of the failure.
    pub open spec fn status(self) -> u16 {
        match self {
            EncoderError::FfmpegError { msg, err, user_fault } => if user_fault {
                BAD_REQUEST
            } else {
                INTERNAL_SERVER_ERROR
            },
            EncoderError::UploadError(e) => e.status(),
            EncoderError::EncodingError(e) => BAD_REQUEST,
            EncoderError::Custom(e) => INTERNAL_SERVER_ERROR,
        }
    }

    /// The sentence that tells of the failure.
    pub open spec fn sentence(self) -> Option<Seq<char>> {
        match self {
            EncoderError::FfmpegError { msg, err: Some(err), user_fault } => Some(
                msg@ + ": "@ + err.text@,
            ),
            EncoderError::FfmpegError { msg, err: None, user_fault } => Some(msg@),
            EncoderError::UploadError(e) => e.sentence(),
            EncoderError::EncodingError(e) => Some("encode failed: "@ + encoding_error_text(e)),
            EncoderError::Custom(e) => Some(e@),
        }
    }

    /// What a client is answered whose song is not encoded.
    pub fn into_response(self) -> (response: ErrorResponse)
        ensures
            response.says(self.status(), self.sentence()),
    {
        match self {
            EncoderError::FfmpegError { msg, err, user_fault } => {
                let status: u16 = if user_fault { BAD_REQUEST } else { INTERNAL_SERVER_ERROR };
                let mut body = String::new();
                body.append(msg);
                if let Some(err) = err {
                    body.append(": ");
                    body.append(err.text.as_str());
                }
                assert(body@ =~= self.sentence()->0);
                ErrorResponse { status, body: Some(body) }
            },
            EncoderError::UploadError(e) => e.into_response(),
            EncoderError::EncodingError(e) => {
                let mut body = String::new();
                body.append("encode failed: ");
                body.append(describe_encoding_error(&e).as_str());
                assert(body@ =~= self.sentence()->0);
                ErrorResponse { status: BAD_REQUEST, body: Some(body) }
            },
            EncoderError::Custom(e) => ErrorResponse {
                status: INTERNAL_SERVER_ERROR,
                body: Some(e),
            },
        }
    }
}

impl From<UploadError> for EncoderError {
    fn from(value: UploadError) -> (error: Self) {
        EncoderError::UploadError(value)
    }
}

impl vstd::std_specs::convert::FromSpecImpl<UploadError> for EncoderError {
    open spec fn obeys_from_spec() -> bool {
        true
    }

    open spec fn from_spec(value: UploadError) -> Self {
        EncoderError::UploadError(value)
    }
}

/// The answer to a failed upload tells what is wrong with it: that it is too big, and how big
/// it is, or that it took too long; of the server's own faults it says nothing more.
pub proof fn failed_uploads_are_answered(size: u64)
    ensures
        UploadError::TooBig(size).status() == 422,
        UploadError::TooBig(size).sentence() == Some(
            "Send Size ("@ + decimal(size as nat) + " bytes) exceeds limit of 15MiB!"@,
        ),
        UploadError::Timeout.status() == 408,
        UploadError::Timeout.sentence() is None,
        UploadError::Internal.status() == 500,
        UploadError::Internal.sentence() is None,
{
}

/// The answer to a song that is not encoded has the words of what went wrong, and blames the
/// client only where the fault lies with the song.
pub proof fn failed_songs_are_answered(error: EncoderError)
    ensures
        match error {
            EncoderError::FfmpegError { msg, err, user_fault } => {
                &&& error.status() == (if user_fault {
                    400u16
                } else {
                    500u16
                })
                &&& error.sentence() == Some(
                    match err {
                        Some(err) => msg@ + ": "@ + err.text@,
                        None => msg@,
                    },
                )
            },
            EncoderError::UploadError(e) => error.status() == e.status() && error.sentence()
                == e.sentence(),
            EncoderError::EncodingError(e) => error.status() == 400 && error.sentence() == Some(
                "encode failed: "@ + encoding_error_text(e),
            ),
            EncoderError::Custom(text) => error.status() == 500 && error.sentence() == Some(text@),
        },
{
}

/// An answer says a status and a body exactly if they are its own.
pub proof fn answers_say_what_they_hold(response: ErrorResponse, status: u16, body: Seq<char>)
    ensures
        response.says(status, Some(body)) <==> response.status == status && (
        response.body matches Some(text) && text@ == body),
        response.says(status, None) <==> response.status == status && response.body is None,
{
}

/// Gives an error of the media library the words that say what was being done.
pub trait FfmpegErrorExt<T>: Sized {
    fn context(self, msg: &'static str, user_fault: bool) -> Result<T, EncoderError>;
}

impl<T> FfmpegErrorExt<T> for Result<T, FfmpegError> {
    fn context(self, msg: &'static str, user_fault: bool) -> (result: Result<T, EncoderError>)
        ensures
            match self {
                Ok(value) => result == Ok::<T, EncoderError>(value),
                Err(err) => result == Err::<T, EncoderError>(
                    (EncoderError::FfmpegError { msg, err: Some(err), user_fault }),
                ),
            },
    {
        match self {
            Ok(value) => Ok(value),
            Err(err) => Err(EncoderError::FfmpegError { msg, err: Some(err), user_fault }),
        }
    }
}

/// The answer to a failed upload has the status and the words of its failure.
pub proof fn upload_errors_become_answers(error: UploadError, response: ErrorResponse)
    requires
        call_ensures(UploadError::into_response, (error,), response),
    ensures
        match error {
            UploadError::TooBig(size) => response.status == 422 && (response.body matches Some(
                body,
            ) && body@ == "Send Size ("@ + decimal(size as nat)
                + " bytes) exceeds limit of 15MiB!"@),
            UploadError::Internal => response.status == 500 && response.body is None,
            UploadError::Timeout => response.status == 408 && response.body is None,
        },
{
}

/// The answer to a song that is not encoded has the status and the words of its failure.
pub proof fn encoder_errors_become_answers(error: EncoderError, response: ErrorResponse)
    requires
        call_ensures(EncoderError::into_response, (error,), response),
    ensures
        match error {
            EncoderError::FfmpegError { msg, err, user_fault } => {
                &&& response.status == (if user_fault {
                    400u16
                } else {
                    500u16
                })
                &&& response.body matches Some(body)
                &&& body@ == match err {
                    Some(err) => msg@ + ": "@ + err.text@,
                    None => msg@,
                }
            },
            EncoderError::EncodingError(e) => response.status == 400 && (response.body matches Some(
                body,
            ) && body@ == "encode failed: "@ + encoding_error_text(e)),
            EncoderError::Custom(text) => response.status == 500 && (response.body matches Some(body)
                && body@ == text@),
            EncoderError::UploadError(e) => response.says(e.status(), e.sentence()),
        },
{
}

/// A result of the media library is passed on as it is, and an error with the words that say
/// what was being done and with whose fault it is.
pub proof fn errors_get_their_context<T>(
    result: Result<T, FfmpegError>,
    msg: &'static str,
    user_fault: bool,
    told: Result<T, EncoderError>,
)
    requires
        call_ensures(
            <Result<T, FfmpegError> as FfmpegErrorExt<T>>::context,
            (result, msg, user_fault),
            told,
        ),
    ensures
        match result {
            Ok(value) => told == Ok::<T, EncoderError>(value),
            Err(error) => told matches Err(EncoderError::FfmpegError { msg: m, err: Some(e), user_fault: u })
                && m == msg && e == error && u == user_fault,
        },
{
}

} // verus!
