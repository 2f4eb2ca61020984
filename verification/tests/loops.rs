use looper::error::UploadError;
use looper::loops::{parse_loops, read_output, Loop};

fn words(line: &str) -> Vec<String> {
    line.split(' ').map(String::from).collect()
}

fn fields(l: &Loop) -> [&str; 5] {
    [&l.start, &l.end, &l.note_distance, &l.loudness_difference, &l.score]
}

#[test]
fn a_loop_is_five_numerals() {
    let found = Loop::parse(&words("1.5 62.25 0.01 0.3 0.99")).unwrap();
    assert_eq!(fields(&found), ["1.5", "62.25", "0.01", "0.3", "0.99"]);
}

#[test]
fn words_behind_the_fifth_do_not_matter() {
    let found = Loop::parse(&words("1 2 3 4 5 six")).unwrap();
    assert_eq!(fields(&found), ["1", "2", "3", "4", "5"]);
}

#[test]
fn a_missing_or_bad_word_spoils_a_loop() {
    assert!(Loop::parse(&words("1 2 3 4")).is_none());
    assert!(Loop::parse(&words("1 2 x 4 5")).is_none());
    assert!(Loop::parse(&words("1 2  4 5")).is_none());
    assert!(Loop::parse(&Vec::new()).is_none());
}

#[test]
fn all_lines_are_read() {
    let loops = parse_loops("\n0.5 10 1 2 0.9\n0.75 20 1e-2 -2 nan\n").unwrap();
    assert_eq!(loops.len(), 2);
    assert_eq!(fields(&loops[0]), ["0.5", "10", "1", "2", "0.9"]);
    assert_eq!(fields(&loops[1]), ["0.75", "20", "1e-2", "-2", "nan"]);
}

#[test]
fn printed_rows_are_read_back() {
    let rows = [["0", "1", "2", "3", "4"], ["5.5", "6", "7", "-8", "1e9"], ["1", "1", "1", "1", "1"]];
    let lines: Vec<String> = rows.iter().map(|row| row.join(" ")).collect();
    let loops = parse_loops(&format!("\n{}", lines.join("\n"))).unwrap();
    let read: Vec<[&str; 5]> = loops.iter().map(fields).collect();
    assert_eq!(read, rows);
}

#[test]
fn one_bad_line_spoils_all() {
    assert_eq!(parse_loops("1 2 3 4 5\nno loops").unwrap_err(), UploadError::Internal);
    assert_eq!(parse_loops("1 2 3 4 5\n\n1 2 3 4 5").unwrap_err(), UploadError::Internal);
    assert_eq!(parse_loops("1 2 3 4 5\r\n1 2 3 4 5").unwrap_err(), UploadError::Internal);
    assert_eq!(parse_loops("").unwrap_err(), UploadError::Internal);
    assert_eq!(parse_loops(" \n ").unwrap_err(), UploadError::Internal);
}

#[test]
fn output_counts_only_if_the_analyzer_ended_well() {
    assert_eq!(read_output(b"1 2 3 4 5\n".to_vec(), true).unwrap().len(), 1);
    assert_eq!(read_output(b"1 2 3 4 5\n".to_vec(), false).unwrap_err(), UploadError::Internal);
}

#[test]
fn output_must_be_text() {
    assert_eq!(read_output(vec![0x31, 0xff, 0x32], true).unwrap_err(), UploadError::Internal);
    let loops = read_output("1 2 3 4 5 \u{e9}\u{1f3b5}".as_bytes().to_vec(), true).unwrap();
    assert_eq!(fields(&loops[0]), ["1", "2", "3", "4", "5"]);
}
