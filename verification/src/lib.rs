//! A server that finds the loops in a song and makes a looping BRSTM file of it.
//!
//! A client uploads a song. The song is kept on disk under a number, an analyzer looks for
//! places where it can be looped, and the client is told these places. It then asks for the
//! song under its number, cut and looped as it likes, and is sent a BRSTM file.
//!
//! This library holds what is decided and computed on the way:
//!
//! - [`upload`]: how an upload is taken in, analyzed and answered,
//! - [`loops`]: what the analyzer prints,
//! - [`storage`]: the uploads on disk, their names, and which of them must go,
//! - [`ffmpeg`]: how a song is decoded,
//! - [`encode`]: how a decoded song becomes a file, with the encoder of [`brstm_codec`],
//! - [`error`]: what is answered when something fails,
//! - [`util`]: files that must not be left behind,
//! - [`server`]: where the server listens,
//! - [`text`], [`decimal`], [`numeral`]: texts and the numbers in them.

pub mod brstm_codec;
pub mod decimal;
pub mod encode;
pub mod error;
pub mod ffmpeg;
pub mod loops;
pub mod numeral;
pub mod server;
pub mod storage;
pub mod text;
pub mod upload;
pub mod util;
