//! Making a BRSTM file of a decoded song.

use brstm::encoder::EncodingError;
use vstd::prelude::*;

use crate::brstm_codec::blocks_complete;
use crate::brstm_codec::encode_song;
use crate::brstm_codec::encoded_song;
use crate::brstm_codec::encoding_error_text;
use crate::brstm_codec::file_length;
use crate::brstm_codec::refusal;
use crate::brstm_codec::refusal_text;
use crate::brstm_codec::samples_of;
use crate::brstm_codec::same_lengths;
use crate::brstm_codec::write_song;
use crate::brstm_codec::written_file;
use crate::brstm_codec::Refusal;
use crate::brstm_codec::BLOCK_SAMPLES;
use crate::error::EncoderError;
use crate::error::BAD_REQUEST;

verus! {

/// What a client wants of the file: where the song loops to, and after how many samples it
/// ends.
#[derive(Debug, Clone, Copy)]
pub struct EncodeQuery {
    pub loop_point: Option<u32>,
    pub end: Option<usize>,
}

/// Status of an answer to a request that has been carried out.
pub const OK: u16 = 200;

/// A file that a client is sent.
#[derive(Debug)]
pub struct Download {
    pub status: u16,
    pub headers: Vec<(&'static str, &'static str)>,
    pub body: Vec<u8>,
}

impl Download {
    /// The download is a file for the client to save, of these bytes.
    pub open spec fn delivers(&self, bytes: Seq<u8>) -> bool {
        &&& self.status == OK
        &&& self.headers@ == seq![
            ("Content-Type", "application/octet-stream"),
            ("Content-Disposition", "attachment"),
        ]
        &&& self.body@ == bytes
    }
}

/// Channels without the samples behind a given end.
pub open spec fn cut(channels: Seq<Seq<i16>>, end: Option<usize>) -> Seq<Seq<i16>> {
    match end {
        Some(end) => channels.map_values(
            |c: Seq<i16>| if end < c.len() { c.take(end as int) } else { c },
        ),
        None => channels,
    }
}

/// The encoder gets through the song, or refuses it, and the file is not too long for the
/// format.
pub open spec fn encodable(channels: Seq<Seq<i16>>, loop_point: Option<u32>) -> bool {
    &&& blocks_complete(channels, loop_point)
    &&& refusal(channels, loop_point) is None ==> file_length(channels.len(), channels[0].len()) + 31
        <= u32::MAX
}

/// Cuts the samples behind a given end off all channels.
pub fn truncate_channels(channels: &mut Vec<Vec<i16>>, end: Option<usize>)
    ensures
        samples_of(final(channels)@) == cut(samples_of(old(channels)@), end),
{
    if let Some(end) = end {
        let ghost all = samples_of(channels@);
        let mut i: usize = 0;
        while i < channels.len()
            invariant
                i <= channels@.len(),
                channels@.len() == all.len(),
                forall|j: int|
                    0 <= j < i ==> (#[trigger] channels@[j])@ == cut(all, Some(end))[j],
                forall|j: int| i <= j < all.len() ==> (#[trigger] channels@[j])@ == all[j],
            decreases channels@.len() - i,
        {
            let channel = &mut channels[i];
            channel.truncate(end);
            i += 1;
        }
        assert(samples_of(channels@) =~= cut(all, Some(end)));
    }
}

/// An end never sets channels apart: channels of one length are of one length when they are
/// cut, the lesser of theirs and the end.
pub proof fn cut_channels_stay_even(channels: Seq<Seq<i16>>, end: usize)
    requires
        same_lengths(channels),
    ensures
        same_lengths(cut(channels, Some(end))),
        forall|i: int|
            0 <= i < channels.len() ==> (#[trigger] cut(channels, Some(end))[i]).len() == if end
                < channels[0].len() {
                end as nat
            } else {
                channels[0].len()
            },
{
    let short = cut(channels, Some(end));
    assert forall|i: int| 0 <= i < channels.len() implies (#[trigger] short[i]).len() == if end
        < channels[0].len() {
        end as nat
    } else {
        channels[0].len()
    } by {
        assert(channels[i].len() == channels[0].len());
    }
}

/// Cutting keeps the beginning: of each channel there stay as many samples as the end says, or
/// all where it has no more, each in its place. Without an end everything stays.
pub proof fn cutting_keeps_the_beginning(channels: Seq<Seq<i16>>, end: usize)
    ensures
        cut(channels, None) == channels,
        cut(channels, Some(end)).len() == channels.len(),
        forall|c: int|
            0 <= c < channels.len() ==> (#[trigger] cut(channels, Some(end))[c]).len() == (if end
                <= channels[c].len() {
                end as nat
            } else {
                channels[c].len()
            }),
        forall|c: int, i: int|
            0 <= c < channels.len() && 0 <= i < end && i < channels[c].len() ==> #[trigger] cut(
                channels,
                Some(end),
            )[c][i] == channels[c][i],
{
}

/// A longer cut holds the shorter one: what stays up to an end is what stays of a cut further
/// behind when it is cut at that end.
pub proof fn longer_cuts_hold_shorter_ones(channels: Seq<Seq<i16>>, end: usize, further: usize)
    requires
        end <= further,
    ensures
        cut(cut(channels, Some(further)), Some(end)) == cut(channels, Some(end)),
{
    let long = cut(channels, Some(further));
    assert forall|c: int| 0 <= c < channels.len() implies #[trigger] cut(long, Some(end))[c] == cut(
        channels,
        Some(end),
    )[c] by {
        assert(cut(long, Some(end))[c] =~= cut(channels, Some(end))[c]);
    }
    assert(cut(long, Some(end)) =~= cut(channels, Some(end)));
}

/// A song can be handed to the encoder if it has a fault that the encoder names, or else if it
/// is long enough, does not end right behind the first sample of a block, and gives no file
/// that is too long for the format.
pub proof fn encodable_songs(channels: Seq<Seq<i16>>, loop_point: Option<u32>)
    ensures
        encodable(channels, loop_point) <==> refusal(channels, loop_point) is Some || {
            &&& channels[0].len() >= 2
            &&& channels[0].len() % 14336 != 1
            &&& file_length(channels.len(), channels[0].len()) + 31 <= 0xffff_ffff
        },
{
}

/// A file for the client to save has the status of a success, says that it is bytes and to be
/// saved, and holds the bytes and nothing else.
pub proof fn deliveries_are_whole_files(download: Download, bytes: Seq<u8>)
    ensures
        download.delivers(bytes) <==> {
            &&& download.status == 200
            &&& download.headers@.len() == 2
            &&& download.headers@[0] == ("Content-Type", "application/octet-stream")
            &&& download.headers@[1] == ("Content-Disposition", "attachment")
            &&& download.body@ == bytes
        },
{
    let headers = seq![
        ("Content-Type", "application/octet-stream"),
        ("Content-Disposition", "attachment"),
    ];
    if download.headers@.len() == 2 && download.headers@[0] == headers[0] && download.headers@[1]
        == headers[1] {
        assert(download.headers@ =~= headers);
    }
}

/// An end at or behind the last sample of every channel neither pads nor cuts: it is as good
/// as none.
pub proof fn end_behind_the_song_changes_nothing(channels: Seq<Seq<i16>>, end: usize)
    requires
        forall|i: int| 0 <= i < channels.len() ==> (#[trigger] channels[i]).len() <= end,
    ensures
        cut(channels, Some(end)) == channels,
        cut(channels, Some(end)) == cut(channels, None),
{
    assert(cut(channels, Some(end)) =~= channels);
}

/// What is cut stays as it is when it is cut at the same end again.
pub proof fn cutting_twice_is_cutting_once(channels: Seq<Seq<i16>>, end: Option<usize>)
    ensures
        cut(cut(channels, end), end) == cut(channels, end),
{
    assert(cut(cut(channels, end), end) =~= cut(channels, end));
}

/// A client whose song the encoder refuses learns why, and that the fault is not the
/// server's.
pub proof fn refused_song_is_answered(error: EncodingError, why: Refusal)
    requires
        encoding_error_text(error) == refusal_text(why),
    ensures
        EncoderError::EncodingError(error).status() == BAD_REQUEST,
        EncoderError::EncodingError(error).sentence() == Some(
            "encode failed: "@ + refusal_text(why),
        ),
{
}

/// Whether the encoder refuses a song.
fn refused(channels: &Vec<Vec<i16>>, loop_point: Option<u32>) -> (yes: bool)
    ensures
        yes == (refusal(samples_of(channels@), loop_point) is Some),
{
    let ghost song = samples_of(channels@);
    if channels.len() == 0 {
        return true;
    }
    let samples = channels[0].len();
    let mut i: usize = 0;
    while i < channels.len()
        invariant
            i <= channels@.len(),
            channels@.len() > 0,
            song == samples_of(channels@),
            samples == song[0].len(),
            forall|j: int| 0 <= j < i ==> (#[trigger] song[j]).len() == samples,
        decreases channels@.len() - i,
    {
        assert(song[i as int] == channels@[i as int]@);
        if channels[i].len() != samples {
            return true;
        }
        i += 1;
    }
    if channels.len() % 2 != 0 || channels.len() > 16 {
        return true;
    }
    match loop_point {
        Some(p) => p as usize > samples,
        None => false,
    }
}

/// Whether the file of a song fits the format.
fn fits_format(channels: usize, samples: usize) -> (yes: bool)
    requires
        channels <= 16,
        samples > 0,
    ensures
        yes == (file_length(channels as nat, samples as nat) + 31 <= u32::MAX),
{
    let c: u128 = channels as u128;
    let n: u128 = samples as u128;
    let blocks: u128 = (n + BLOCK_SAMPLES as u128 - 1) / BLOCK_SAMPLES as u128;
    let last_samples: u128 = n - (blocks - 1) * BLOCK_SAMPLES as u128;
    let last_bytes: u128 = ((last_samples + 13) / 14 * 8 + 31) / 32 * 32;
    let channel_bytes: u128 = (blocks - 1) * 8192 + last_bytes;
    assert(c * channel_bytes <= 16 * channel_bytes) by (nonlinear_arith)
        requires
            c <= 16,
            channel_bytes >= 0,
    ;
    assert(4 * c * blocks <= 64 * blocks) by (nonlinear_arith)
        requires
            c <= 16,
            blocks >= 0,
    ;
    let data: u128 = c * channel_bytes;
    let head: u128 = (156 + 70 * c + 31) / 32 * 32;
    let adpcm: u128 = (4 * c * blocks + 8 + 31) / 32 * 32;
    head + adpcm + 32 + data + 31 <= 0xffff_ffff
}

/// Whether a song can be handed to [`encode_brstm`] as it is.
pub fn can_encode(channels: &Vec<Vec<i16>>, loop_point: Option<u32>) -> (yes: bool)
    ensures
        yes == encodable(samples_of(channels@), loop_point),
{
    let ghost song = samples_of(channels@);
    if refused(channels, loop_point) {
        return true;
    }
    assert(song[0] == channels@[0]@);
    let samples = channels[0].len();
    samples >= 2 && samples % BLOCK_SAMPLES != 1 && fits_format(channels.len(), samples)
}

/// Has a client sent the file that was written, or told why there is none.
pub fn deliver(file: Result<Vec<u8>, String>) -> (download: Result<Download, EncoderError>)
    ensures
        match file {
            Ok(bytes) => download matches Ok(d) && d.delivers(bytes@),
            Err(why) => download matches Err(EncoderError::Custom(text)) && text@ == why@,
        },
{
    match file {
        Ok(body) => {
            let mut headers: Vec<(&'static str, &'static str)> = Vec::new();
            headers.push(("Content-Type", "application/octet-stream"));
            headers.push(("Content-Disposition", "attachment"));
            let download = Download { status: OK, headers, body };
            assert(download.headers@ =~= seq![
                ("Content-Type", "application/octet-stream"),
                ("Content-Disposition", "attachment"),
            ]);
            Ok(download)
        },
        Err(why) => Err(EncoderError::Custom(why)),
    }
}

/// Makes a BRSTM file of a decoded song as a client wants it. Nothing else of the request has
/// a say in it: the client gets the same file under whatever name it asks for one.
pub fn encode_brstm(channels: Vec<Vec<i16>>, sampling_rate: u16, options: EncodeQuery) -> (download:
    Result<Download, EncoderError>)
    requires
        encodable(cut(samples_of(channels@), options.end), options.loop_point),
    ensures
        ({
            let song = cut(samples_of(channels@), options.end);
            match refusal(song, options.loop_point) {
                Some(why) => {
                    &&& download matches Err(EncoderError::EncodingError(e))
                    &&& encoding_error_text(e) == refusal_text(why)
                },
                None => {
                    let bytes = written_file(
                        encoded_song(song, sampling_rate, options.loop_point),
                    );
                    &&& download matches Ok(d) && d.delivers(bytes)
                    &&& bytes.len() == file_length(song.len(), song[0].len())
                },
            }
        }),
{
    let mut channels = channels;
    truncate_channels(&mut channels, options.end);
    assert(channels@.len() > 0 ==> samples_of(channels@)[0] == channels@[0]@);
    match encode_song(&channels, sampling_rate, options.loop_point) {
        Ok(song) => deliver(write_song(&song)),
        Err(e) => Err(EncoderError::EncodingError(e)),
    }
}

/// Of each channel the samples before the end stay, each in its place, and no others do;
/// without an end all stay.
pub proof fn truncated_channels_are_beginnings(channels: &mut Vec<Vec<i16>>, end: Option<usize>)
    requires
        call_ensures(truncate_channels, (channels, end), ()),
    ensures
        final(channels)@.len() == old(channels)@.len(),
        forall|c: int|
            0 <= c < old(channels)@.len() ==> {
                let before = old(channels)@[c]@;
                let after = (#[trigger] final(channels)@[c])@;
                &&& match end {
                    Some(end) if end < before.len() => after.len() == end,
                    _ => after.len() == before.len(),
                }
                &&& forall|i: int| 0 <= i < after.len() ==> #[trigger] after[i] == before[i]
            },
{
    let all = samples_of(old(channels)@);
    let short = samples_of(final(channels)@);
    assert(short.len() == all.len());
    assert forall|c: int| 0 <= c < old(channels)@.len() implies ({
        let before = old(channels)@[c]@;
        let after = (#[trigger] final(channels)@[c])@;
        &&& match end {
            Some(end) if end < before.len() => after.len() == end,
            _ => after.len() == before.len(),
        }
        &&& forall|i: int| 0 <= i < after.len() ==> #[trigger] after[i] == before[i]
    }) by {
        assert(all[c] == old(channels)@[c]@);
        assert(short[c] == final(channels)@[c]@);
        if let Some(end) = end {
            cutting_keeps_the_beginning(all, end);
            assert(short[c] == cut(all, Some(end))[c]);
        }
    }
}

/// The client gets what the encoder makes of the beginning of the song up to the end that it
/// asked for, at the sampling rate of the song and with the loop that it asked for, as a whole
/// file to save. It gets no file exactly if the encoder refuses that, and learns why.
pub proof fn song_becomes_its_file(
    channels: Vec<Vec<i16>>,
    sampling_rate: u16,
    options: EncodeQuery,
    download: Result<Download, EncoderError>,
    song: Seq<Seq<i16>>,
)
    requires
        call_ensures(encode_brstm, (channels, sampling_rate, options), download),
        song.len() == channels@.len(),
        forall|c: int|
            0 <= c < song.len() ==> #[trigger] song[c] == match options.end {
                Some(end) if end < channels@[c]@.len() => channels@[c]@.take(end as int),
                _ => channels@[c]@,
            },
    ensures
        match refusal(song, options.loop_point) {
            None => {
                &&& download matches Ok(d)
                &&& d.status == 200
                &&& d.headers@.len() == 2
                &&& d.headers@[0] == ("Content-Type", "application/octet-stream")
                &&& d.headers@[1] == ("Content-Disposition", "attachment")
                &&& d.body@ == written_file(encoded_song(song, sampling_rate, options.loop_point))
            },
            Some(why) => download matches Err(EncoderError::EncodingError(e)) && encoding_error_text(
                e,
            ) == refusal_text(why),
        },
{
    let all = samples_of(channels@);
    assert(song =~= cut(all, options.end)) by {
        assert forall|c: int| 0 <= c < song.len() implies song[c] == cut(all, options.end)[c] by {
            assert(all[c] == channels@[c]@);
            if let Some(end) = options.end {
                cutting_keeps_the_beginning(all, end);
                assert(song[c] =~= cut(all, Some(end))[c]);
            }
        }
    }
    if let Ok(d) = download {
        deliveries_are_whole_files(
            d,
            written_file(encoded_song(song, sampling_rate, options.loop_point)),
        );
    }
}

/// A song is told to be fit for the encoder if the encoder refuses it, or gets through it and
/// can lay out the file.
pub proof fn fit_songs_are_told(channels: &Vec<Vec<i16>>, loop_point: Option<u32>, yes: bool)
    requires
        call_ensures(can_encode, (channels, loop_point), yes),
    ensures
        yes <==> refusal(samples_of(channels@), loop_point) is Some || {
            &&& channels@[0]@.len() >= 2
            &&& channels@[0]@.len() % 14336 != 1
            &&& file_length(channels@.len(), channels@[0]@.len()) + 31 <= 0xffff_ffff
        },
{
    encodable_songs(samples_of(channels@), loop_point);
    if channels@.len() > 0 {
        assert(samples_of(channels@)[0] == channels@[0]@);
    }
}

/// A file that was written is delivered, byte by byte, and where there is none, the client
/// learns why in the words that were given.
pub proof fn written_files_are_delivered(
    file: Result<Vec<u8>, String>,
    download: Result<Download, EncoderError>,
)
    requires
        call_ensures(deliver, (file,), download),
    ensures
        file is Ok <==> download is Ok,
        file matches Ok(bytes) ==> (download matches Ok(d) && d.status == 200 && d.body@ == bytes@),
        file matches Err(why) ==> (download matches Err(EncoderError::Custom(text)) && text@
            == why@),
{
    if let Ok(d) = download {
        deliveries_are_whole_files(d, file->Ok_0@);
    }
}

} // verus!
