//! The BRSTM encoder of the `brstm` crate: what it is asked for and what it answers.

use std::io::Cursor;

use brstm::encoder::EncodingError;
use brstm::BrstmInfoWithData;
use vstd::prelude::*;

use crate::decimal::decimal;

verus! {

/// Samples of one channel in a full block.
pub const BLOCK_SAMPLES: usize = 14336;

/// `brstm::BrstmInfoWithData`: an encoded song, not yet laid out as a file.
#[verifier::external_type_specification]
#[verifier::external_body]
pub struct ExBrstmInfoWithData(brstm::BrstmInfoWithData);

/// `brstm::encoder::EncodingError`: why the encoder refuses a song.
#[verifier::external_type_specification]
#[verifier::external_body]
pub struct ExEncodingError(brstm::encoder::EncodingError);

/// What is wrong with a song that the encoder refuses.
pub enum Refusal {
    EmptyChannels,
    MismatchedLengths(Seq<nat>),
    UnevenChannelCount(nat),
    TooHighChannelCount(nat),
    LoopOutOfBounds { loop_point: nat, size: nat },
}

/// The samples of every channel.
pub open spec fn samples_of(channels: Seq<Vec<i16>>) -> Seq<Seq<i16>> {
    channels.map_values(|c: Vec<i16>| c@)
}

/// The number of samples of every channel.
pub open spec fn lengths_of(channels: Seq<Seq<i16>>) -> Seq<nat> {
    channels.map_values(|c: Seq<i16>| c.len())
}

/// All channels have as many samples as the first.
pub open spec fn same_lengths(channels: Seq<Seq<i16>>) -> bool {
    forall|i: int| 0 <= i < channels.len() ==> (#[trigger] channels[i]).len() == channels[0].len()
}

/// What the encoder finds wrong first, if anything.
pub open spec fn refusal(channels: Seq<Seq<i16>>, loop_point: Option<u32>) -> Option<Refusal> {
    if channels.len() == 0 {
        Some(Refusal::EmptyChannels)
    } else if !same_lengths(channels) {
        Some(Refusal::MismatchedLengths(lengths_of(channels)))
    } else if channels.len() % 2 != 0 {
        Some(Refusal::UnevenChannelCount(channels.len()))
    } else if channels.len() > 16 {
        Some(Refusal::TooHighChannelCount(channels.len()))
    } else {
        match loop_point {
            Some(p) if p > channels[0].len() => Some(
                Refusal::LoopOutOfBounds { loop_point: p as nat, size: channels[0].len() },
            ),
            _ => None,
        }
    }
}

/// Numbers in decimal notation with a comma and a space between each two.
pub open spec fn listed(numbers: Seq<nat>) -> Seq<char>
    decreases numbers.len(),
{
    if numbers.len() == 0 {
        Seq::<char>::empty()
    } else if numbers.len() == 1 {
        decimal(numbers[0])
    } else {
        listed(numbers.drop_last()) + ", "@ + decimal(numbers.last())
    }
}

/// The sentence that explains a refusal.
pub open spec fn refusal_text(refusal: Refusal) -> Seq<char> {
    match refusal {
        Refusal::EmptyChannels => "No channels, at least 2 are needed"@,
        Refusal::MismatchedLengths(lengths) => "All Channels must have the same length, got ["@
            + listed(lengths) + "]"@,
        Refusal::UnevenChannelCount(n) => "Only stereo is supported, but channel count "@ + decimal(
            n,
        ) + " isn't divisible by 2"@,
        Refusal::TooHighChannelCount(n) => "Too many channels: "@ + decimal(n)
            + ", only 16 are supported"@,
        Refusal::LoopOutOfBounds { loop_point, size } => "Loop point "@ + decimal(loop_point)
            + " is greater than the amount of samples "@ + decimal(size),
    }
}

/// The encoder gets through a song that it does not refuse if each block of it starts with
/// two samples at least.
pub open spec fn blocks_complete(channels: Seq<Seq<i16>>, loop_point: Option<u32>) -> bool {
    refusal(channels, loop_point) is None ==> {
        &&& channels[0].len() >= 2
        &&& channels[0].len() % BLOCK_SAMPLES as nat != 1
    }
}

/// The next multiple of 32.
pub open spec fn aligned(n: nat) -> nat {
    (n + 31) / 32 * 32
}

/// The length of the file that holds as many stereo channels of as many samples: the file
/// header and the `HEAD` section, the `ADPC` section with four bytes for each block of each
/// channel, and the `DATA` section with eight bytes for each 14 samples, where all but the
/// last block of a channel take 8192 bytes.
pub open spec fn file_length(channels: nat, samples: nat) -> nat {
    let blocks = (samples + BLOCK_SAMPLES - 1) / BLOCK_SAMPLES as int;
    let last_samples = samples - (blocks - 1) * BLOCK_SAMPLES;
    let last_bytes = aligned(((last_samples + 13) / 14 * 8) as nat);
    let data = channels * ((blocks - 1) * 8192 + last_bytes);
    (aligned(156 + 70 * channels) + aligned((4 * channels * blocks + 8) as nat) + 32 + data) as nat
}

/// The samples of every channel are those that it holds.
pub proof fn samples_are_those_of_the_channels(channels: Seq<Vec<i16>>)
    ensures
        samples_of(channels).len() == channels.len(),
        forall|c: int| 0 <= c < channels.len() ==> #[trigger] samples_of(channels)[c] == channels[c]@,
{
}

/// The encoder takes a song of two to sixteen channels in pairs, all of one length, that loops
/// to a place in it or to its end. Of any other song it names the first fault in this order:
/// no channels, channels of different lengths, a channel without its pair, too many channels,
/// a loop that leads behind the end.
pub proof fn first_fault_is_named(channels: Seq<Seq<i16>>, loop_point: Option<u32>)
    ensures
        ({
            let even = forall|i: int, j: int|
                0 <= i < channels.len() && 0 <= j < channels.len() ==> (#[trigger] channels[i]).len()
                    == (#[trigger] channels[j]).len();
            let n = channels.len();
            match refusal(channels, loop_point) {
                None => {
                    &&& even
                    &&& n == 2 || n == 4 || n == 6 || n == 8 || n == 10 || n == 12 || n == 14 || n
                        == 16
                    &&& loop_point matches Some(p) ==> p <= channels[0].len()
                },
                Some(Refusal::EmptyChannels) => n == 0,
                Some(Refusal::MismatchedLengths(lengths)) => {
                    &&& !even
                    &&& lengths.len() == n
                    &&& forall|i: int| 0 <= i < n ==> #[trigger] lengths[i] == channels[i].len()
                },
                Some(Refusal::UnevenChannelCount(count)) => even && count == n && n % 2 == 1,
                Some(Refusal::TooHighChannelCount(count)) => even && count == n && n % 2 == 0 && n
                    > 16,
                Some(Refusal::LoopOutOfBounds { loop_point: p, size }) => {
                    &&& even
                    &&& n % 2 == 0 && 2 <= n <= 16
                    &&& loop_point matches Some(point) && point == p
                    &&& size == channels[0].len()
                    &&& p > size
                },
            }
        }),
{
    if same_lengths(channels) {
        assert forall|i: int, j: int|
            0 <= i < channels.len() && 0 <= j < channels.len() implies (#[trigger] channels[i]).len()
            == (#[trigger] channels[j]).len() by {
            assert(channels[i].len() == channels[0].len());
            assert(channels[j].len() == channels[0].len());
        }
    } else {
        let i = choose|i: int|
            0 <= i < channels.len() && (#[trigger] channels[i]).len() != channels[0].len();
        assert(channels[i].len() != channels[0].len());
    }
}

/// A file of one block for each channel has the sections that it must have, and each full
/// block more makes it longer by 8192 bytes for each channel, and by its entries in the `ADPC`
/// section. All sections end at a multiple of 32.
pub proof fn file_grows_block_by_block(channels: nat, samples: nat)
    requires
        samples > 0,
    ensures
        ({
            let blocks = ((samples + 14335) / 14336) as nat;
            let fewer = aligned((4 * channels * blocks + 8) as nat);
            let more = aligned((4 * channels * (blocks + 1) + 8) as nat);
            file_length(channels, samples + 14336) == file_length(channels, samples) + channels * 8192
                + more - fewer
        }),
        samples <= 14336 ==> file_length(channels, samples) == aligned(156 + 70 * channels)
            + aligned(4 * channels + 8) + 32 + channels * aligned(
            ((samples + 13) / 14 * 8) as nat,
        ),
{
    let blocks = (samples + 14335) / 14336;
    let last = samples - (blocks - 1) * 14336;
    let bytes = aligned(((last + 13) / 14 * 8) as nat) as int;
    assert((samples + 14336 + 14335) / 14336 == blocks + 1);
    assert(channels * (blocks * 8192 + bytes) == channels * ((blocks - 1) * 8192 + bytes) + channels
        * 8192) by (nonlinear_arith);
    assert(channels * ((blocks - 1) * 8192 + bytes) >= 0) by (nonlinear_arith)
        requires
            blocks >= 1,
            bytes >= 0,
    ;
    assert(4 * channels * blocks >= 0) by (nonlinear_arith)
        requires
            blocks >= 1,
    ;
    assert(4 * channels * (blocks + 1) >= 0) by (nonlinear_arith)
        requires
            blocks >= 1,
    ;
    if samples <= 14336 {
        assert(blocks == 1);
        assert(4 * channels * blocks == 4 * channels) by (nonlinear_arith)
            requires
                blocks == 1,
        ;
        assert(channels * ((blocks - 1) * 8192 + bytes) == channels * bytes) by (nonlinear_arith)
            requires
                blocks == 1,
        ;
    }
}

/// Rounding up leads to the next multiple of 32, and no further.
pub proof fn aligned_is_the_next_multiple(n: nat)
    ensures
        aligned(n) % 32 == 0,
        n <= aligned(n) < n + 32,
{
}

/// The sentence with which `EncodingError` is displayed.
pub uninterp spec fn encoding_error_text(error: EncodingError) -> Seq<char>;

/// The song that `brstm::encoder::encode_brstm` makes of samples, a sampling rate and a loop
/// point that it does not refuse.
pub uninterp spec fn encoded_song(
    channels: Seq<Seq<i16>>,
    sampling_rate: u16,
    loop_point: Option<u32>,
) -> BrstmInfoWithData;

/// The bytes that `BrstmInfoWithData::write_brstm` writes for an encoded song.
pub uninterp spec fn written_file(song: BrstmInfoWithData) -> Seq<u8>;

/// `brstm::encoder::encode_brstm`. It refuses a song exactly as [`refusal`] says, and the
/// error it gives then reads as [`refusal_text`] says. What it makes of any other song depends
/// on the arguments alone, and the file of it has the length that [`file_length`] says. Not
/// refused, a song of fewer than two samples, or one whose last block would hold a single
/// sample, makes the encoder read past its end: no such song may be given.
#[verifier::external_body]
pub(crate) fn encode_song(
    channels: &Vec<Vec<i16>>,
    sampling_rate: u16,
    loop_point: Option<u32>,
) -> (song: Result<BrstmInfoWithData, EncodingError>)
    requires
        blocks_complete(samples_of(channels@), loop_point),
    ensures
        song is Err <==> refusal(samples_of(channels@), loop_point) is Some,
        song matches Err(e) ==> encoding_error_text(e) == refusal_text(
            refusal(samples_of(channels@), loop_point)->0,
        ),
        song matches Ok(s) ==> s == encoded_song(samples_of(channels@), sampling_rate, loop_point),
        song matches Ok(s) ==> written_file(s).len() == file_length(
            channels@.len(),
            channels@[0]@.len(),
        ),
{
    brstm::encoder::encode_brstm(channels, sampling_rate, loop_point)
}

/// `BrstmInfoWithData::write_brstm` into memory, through `std::io::Cursor`. What it writes
/// depends on the song alone. It fails only where the writer does, and memory takes every byte
/// at every position, so there always is a file. The format has 32 bits for a position in the
/// file, and the end of the file is rounded up to a multiple of 32: a longer one may not be
/// asked for.
#[verifier::external_body]
pub(crate) fn write_song(song: &BrstmInfoWithData) -> (file: Result<Vec<u8>, String>)
    requires
        written_file(*song).len() + 31 <= u32::MAX,
    ensures
        file is Ok,
        file matches Ok(bytes) ==> bytes@ == written_file(*song),
{
    let mut bytes = Vec::new();
    match song.write_brstm(&mut Cursor::new(&mut bytes)) {
        Ok(()) => Ok(bytes),
        Err(e) => Err(e.to_string()),
    }
}

/// `EncodingError::to_string`: the sentence with which the error is displayed.
#[verifier::external_body]
pub(crate) fn describe_encoding_error(error: &EncodingError) -> (text: String)
    ensures
        text@ == encoding_error_text(*error),
{
    error.to_string()
}

} // verus!
