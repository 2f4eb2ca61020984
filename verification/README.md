# Looper

A server that finds the loops in a song and makes a looping BRSTM file of it.

`src/` is the library: everything that is decided and computed between a request and its
answer, written in Verus. `app/` is the server around it: HTTP, files, the media library and
the analyzer process. `tests/` runs the library.

Each function of the library has a contract that is proved, but for the following, which do no
more than call a function of another library. What their contracts claim of it is believed,
since Verus cannot look into its code:

- `brstm_codec::encode_song` calls `brstm::encoder::encode_brstm`.
- `brstm_codec::write_song` calls `BrstmInfoWithData::write_brstm`.
- `brstm_codec::describe_encoding_error` calls `EncodingError::to_string`.
- `loops::utf8_text` calls `String::from_utf8`.
- `storage::join_path` calls `Path::join`.
- `storage::sort_by_age` calls `slice::sort_unstable`.
- `text` states what `String::push` does.

The server needs `pymusiclooper` on its path, the libraries of FFmpeg, and a directory for the
uploads in `LOOPER_TEMP_DIR`. It listens on `PORT`, or on 3000.
