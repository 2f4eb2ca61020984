use std::io::Cursor;

use looper::encode::{can_encode, deliver, encode_brstm, truncate_channels, Download, EncodeQuery};
use looper::error::EncoderError;

const WHOLE: EncodeQuery = EncodeQuery { loop_point: None, end: None };

fn wave(channels: usize, samples: usize) -> Vec<Vec<i16>> {
    (0..channels)
        .map(|c| (0..samples).map(|i| ((i * (c + 3) * 37) % 20011) as i16 - 10000).collect())
        .collect()
}

fn written(channels: &[Vec<i16>], rate: u16, loop_point: Option<u32>) -> Vec<u8> {
    let mut bytes = Vec::new();
    brstm::encoder::encode_brstm(channels, rate, loop_point)
        .unwrap()
        .write_brstm(&mut Cursor::new(&mut bytes))
        .unwrap();
    bytes
}

fn bytes_of(download: Result<Download, EncoderError>) -> Vec<u8> {
    let download = download.unwrap();
    assert_eq!(download.status, 200);
    assert_eq!(
        download.headers,
        vec![("Content-Type", "application/octet-stream"), ("Content-Disposition", "attachment")]
    );
    download.body
}

fn answer(download: Result<Download, EncoderError>) -> (u16, String) {
    let response = download.unwrap_err().into_response();
    (response.status, response.body.unwrap())
}

/// The length that a file is expected to have.
fn expected_length(channels: usize, samples: usize) -> usize {
    let aligned = |n: usize| (n + 31) / 32 * 32;
    let blocks = (samples + 14335) / 14336;
    let last = samples - (blocks - 1) * 14336;
    let data = channels * ((blocks - 1) * 8192 + aligned((last + 13) / 14 * 8));
    aligned(156 + 70 * channels) + aligned(4 * channels * blocks + 8) + 32 + data
}

#[test]
fn a_song_becomes_the_file_that_the_encoder_makes() {
    let song = wave(2, 3000);
    let file = bytes_of(encode_brstm(song.clone(), 44100, WHOLE));
    assert_eq!(&file[..4], b"RSTM");
    assert_eq!(file, written(&song, 44100, None));
    let looped = bytes_of(encode_brstm(song.clone(), 32000, EncodeQuery { loop_point: Some(1500), end: None }));
    assert_eq!(looped, written(&song, 32000, Some(1500)));
    assert_ne!(file, looped);
}

#[test]
fn an_end_cuts_all_channels() {
    let mut song = wave(2, 100);
    truncate_channels(&mut song, Some(40));
    assert_eq!(song, vec![wave(2, 100)[0][..40].to_vec(), wave(2, 100)[1][..40].to_vec()]);
    truncate_channels(&mut song, Some(40));
    truncate_channels(&mut song, Some(41));
    truncate_channels(&mut song, None);
    assert_eq!(song[0].len(), 40);
    let mut uneven = vec![vec![1, 2, 3], vec![4]];
    truncate_channels(&mut uneven, Some(2));
    assert_eq!(uneven, vec![vec![1, 2], vec![4]]);
    let file = bytes_of(encode_brstm(wave(2, 100), 44100, EncodeQuery { loop_point: Some(40), end: Some(40) }));
    assert_eq!(file, written(&song, 44100, Some(40)));
}

#[test]
fn an_end_behind_the_song_is_as_good_as_none() {
    for end in [100, 101, usize::MAX] {
        let mut song = wave(2, 100);
        truncate_channels(&mut song, Some(end));
        assert_eq!(song, wave(2, 100));
        let file = bytes_of(encode_brstm(wave(2, 100), 44100, EncodeQuery { loop_point: Some(7), end: Some(end) }));
        let whole = bytes_of(encode_brstm(wave(2, 100), 44100, EncodeQuery { loop_point: Some(7), end: None }));
        assert_eq!(file, whole);
    }
}

#[test]
fn an_end_keeps_channels_even() {
    for end in [0, 1, 7, 8, 9] {
        let mut song = wave(4, 8);
        truncate_channels(&mut song, Some(end));
        assert!(song.iter().all(|c| c.len() == end.min(8)));
    }
}

#[test]
fn files_have_the_expected_length() {
    for channels in [2, 4, 16] {
        for samples in [2, 13, 14, 15, 56, 57, 14335, 14336, 14338, 28672, 30000] {
            let file = bytes_of(encode_brstm(wave(channels, samples), 44100, WHOLE));
            assert_eq!(file.len(), expected_length(channels, samples), "{channels} {samples}");
            let noted = u32::from_be_bytes(file[8..12].try_into().unwrap());
            assert_eq!(noted as usize, file.len());
        }
    }
}

#[test]
fn songs_without_channels_are_refused() {
    assert_eq!(
        answer(encode_brstm(vec![], 44100, WHOLE)),
        (400, "encode failed: No channels, at least 2 are needed".to_string())
    );
}

#[test]
fn songs_of_uneven_channels_are_refused() {
    assert_eq!(
        answer(encode_brstm(vec![vec![0; 10], vec![0; 12], vec![]], 44100, WHOLE)),
        (400, "encode failed: All Channels must have the same length, got [10, 12, 0]".to_string())
    );
}

#[test]
fn mono_songs_are_refused() {
    assert_eq!(
        answer(encode_brstm(wave(1, 10), 44100, WHOLE)),
        (400, "encode failed: Only stereo is supported, but channel count 1 isn't divisible by 2".to_string())
    );
    assert!(matches!(encode_brstm(wave(19, 0), 44100, WHOLE), Err(EncoderError::EncodingError(_))));
}

#[test]
fn songs_of_too_many_channels_are_refused() {
    assert_eq!(
        answer(encode_brstm(wave(18, 10), 44100, WHOLE)),
        (400, "encode failed: Too many channels: 18, only 16 are supported".to_string())
    );
}

#[test]
fn loops_behind_the_end_are_refused() {
    assert_eq!(
        answer(encode_brstm(wave(2, 10), 44100, EncodeQuery { loop_point: Some(11), end: None })),
        (400, "encode failed: Loop point 11 is greater than the amount of samples 10".to_string())
    );
    assert_eq!(
        answer(encode_brstm(wave(2, 100), 44100, EncodeQuery { loop_point: Some(50), end: Some(49) })),
        (400, "encode failed: Loop point 50 is greater than the amount of samples 49".to_string())
    );
}

#[test]
fn songs_that_the_encoder_cannot_get_through_are_known() {
    for samples in [0, 1, 14337, 28673] {
        assert!(!can_encode(&wave(2, samples), None), "{samples}");
    }
    for samples in [2, 3, 14, 15, 14336, 14338, 28674] {
        assert!(can_encode(&wave(2, samples), None), "{samples}");
    }
    assert!(can_encode(&wave(1, 0), None));
    assert!(can_encode(&vec![], None));
    assert!(can_encode(&wave(2, 1), Some(2)));
}

#[test]
fn what_was_written_is_delivered() {
    assert_eq!(bytes_of(deliver(Ok(vec![1, 2, 3]))), vec![1, 2, 3]);
    assert_eq!(answer(deliver(Err("no room".to_string()))), (500, "no room".to_string()));
}
