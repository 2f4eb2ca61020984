use std::path::Path;

use looper::storage::{
    id_from_name, make_path_from_id, name_from_id, next_upload_id, path_from_id_text, Cleanup,
    StoredFile, Tour, TourAction, TourEvent, MAX_IDLE_NANOS, MAX_TOTAL_UPLOAD,
};
use looper::util::DeleteOnDrop;

fn names(list: &[&str]) -> Vec<String> {
    list.iter().map(|name| name.to_string()).collect()
}

fn upload(name: &str, size: u64) -> StoredFile {
    StoredFile { name: Some(name.to_string()), size, idle_nanos: Some(0) }
}

#[test]
fn uploads_have_numbered_names() {
    assert_eq!(name_from_id(0), "looper-temp-0");
    assert_eq!(name_from_id(1207), "looper-temp-1207");
    assert_eq!(make_path_from_id(Path::new("/var/uploads"), 12), Path::new("/var/uploads/looper-temp-12"));
}

#[test]
fn the_number_that_a_client_names_leads_to_its_upload() {
    let dir = Path::new("/var/uploads");
    let path = Some(Path::new("/var/uploads/looper-temp-12").to_path_buf());
    for text in ["12", "+12", "012"] {
        assert_eq!(path_from_id_text(dir, text), path);
    }
    for text in ["", "-12", " 12", "12.wav", "../12", "1/2", "99999999999999999999999"] {
        assert_eq!(path_from_id_text(dir, text), None, "{text}");
    }
}

#[test]
fn names_are_read_back() {
    for id in [0, 1, 10, 999, usize::MAX] {
        assert_eq!(id_from_name(&name_from_id(id)), Some(id));
    }
}

#[test]
fn other_names_have_no_number() {
    assert_eq!(id_from_name("looper-temp-"), None);
    assert_eq!(id_from_name("looper-temp"), None);
    assert_eq!(id_from_name("Looper-temp-1"), None);
    assert_eq!(id_from_name("looper-temp-1.wav"), None);
    assert_eq!(id_from_name("1"), None);
    assert_eq!(id_from_name(""), None);
    assert_eq!(id_from_name("looper-temp-+05"), Some(5));
}

#[test]
fn numbers_go_on_after_a_restart() {
    assert_eq!(next_upload_id(&names(&[])), 1);
    assert_eq!(next_upload_id(&names(&["readme", "looper-temp-x"])), 1);
    assert_eq!(next_upload_id(&names(&["looper-temp-0"])), 1);
    assert_eq!(next_upload_id(&names(&["looper-temp-9", "looper-temp-30", "x", "looper-temp-4"])), 31);
}

#[test]
fn new_numbers_take_no_old_name() {
    let old = names(&["looper-temp-9", "looper-temp-030", "other"]);
    let first = next_upload_id(&old);
    for id in first..first + 100 {
        assert!(!old.contains(&name_from_id(id)));
    }
}

#[test]
fn a_file_is_deleted_unless_kept() {
    let path = Path::new("some/file");
    let mut guard = DeleteOnDrop::new(path);
    assert_eq!(guard.on_drop(), Some(path));
    guard.keep();
    assert_eq!(guard.on_drop(), None);
}

#[test]
fn files_expire_after_a_day() {
    let mut cleanup = Cleanup::new();
    let mut file = upload("looper-temp-1", 10);
    file.idle_nanos = Some(MAX_IDLE_NANOS);
    assert!(!cleanup.observe(&file));
    file.idle_nanos = Some(MAX_IDLE_NANOS + 1);
    assert!(cleanup.observe(&file));
    file.idle_nanos = None;
    assert!(!cleanup.observe(&file));
    let stranger = StoredFile { name: None, size: 5, idle_nanos: Some(86_400_000_000_001) };
    assert!(cleanup.observe(&stranger));
    assert_eq!(cleanup.total_size(), Some(20));
}

#[test]
fn only_uploads_count() {
    let mut cleanup = Cleanup::new();
    assert!(!cleanup.observe(&upload("notes.txt", 100)));
    assert!(!cleanup.observe(&StoredFile { name: None, size: 100, idle_nanos: None }));
    assert!(!cleanup.observe(&upload("looper-temp-3", 7)));
    assert_eq!(cleanup.total_size(), Some(7));
    assert_eq!(cleanup.finish(), vec![]);
}

#[test]
fn nothing_goes_at_the_limit() {
    let mut cleanup = Cleanup::new();
    cleanup.observe(&upload("looper-temp-1", MAX_TOTAL_UPLOAD - 1));
    cleanup.observe(&upload("looper-temp-2", 1));
    assert_eq!(cleanup.finish(), vec![]);
}

#[test]
fn the_oldest_go_first_and_no_more_than_must() {
    let gib = 1024 * 1024 * 1024;
    let mut cleanup = Cleanup::new();
    for (name, size) in [
        ("looper-temp-10", gib),
        ("looper-temp-2", 5),
        ("looper-temp-9", gib / 2),
        ("looper-temp-11", gib),
        ("looper-temp-02", 3),
    ] {
        assert!(!cleanup.observe(&upload(name, size)));
    }
    assert_eq!(cleanup.finish(), vec![(2, 3), (2, 5), (9, gib / 2)]);
}

#[test]
fn a_file_over_the_limit_goes_though_it_is_the_last() {
    let mut cleanup = Cleanup::new();
    cleanup.observe(&upload("looper-temp-1", 1));
    cleanup.observe(&upload("looper-temp-2", MAX_TOTAL_UPLOAD + 1));
    assert_eq!(cleanup.finish(), vec![(1, 1), (2, MAX_TOTAL_UPLOAD + 1)]);
}

#[test]
fn sizes_beyond_64_bits_are_noticed() {
    let mut cleanup = Cleanup::new();
    cleanup.observe(&upload("looper-temp-1", u64::MAX));
    assert_eq!(cleanup.total_size(), Some(u64::MAX));
    cleanup.observe(&upload("looper-temp-2", 1));
    assert_eq!(cleanup.total_size(), None);
}

/// Makes a tour through files, on which removals succeed or fail in turn, and lists what was
/// to be done.
fn tour_through(files: Vec<StoredFile>, outcomes: &[bool]) -> Vec<TourAction> {
    let mut files = files.into_iter();
    let mut outcomes = outcomes.iter().cycle();
    let mut tour = Tour::new();
    let mut actions = vec![TourAction::NextFile];
    loop {
        let event = match actions[actions.len() - 1] {
            TourAction::NextFile => match files.next() {
                Some(file) => TourEvent::File(file),
                None => TourEvent::EndOfDirectory,
            },
            TourAction::RemoveFile | TourAction::RemoveUpload { .. } => {
                TourEvent::Removed(*outcomes.next().unwrap())
            }
            TourAction::Finish => return actions,
        };
        actions.push(tour.filelimit_cleanup(event));
    }
}

fn crowded_directory() -> Vec<StoredFile> {
    let old = Some(MAX_IDLE_NANOS + 1);
    vec![
        upload("looper-temp-8", MAX_TOTAL_UPLOAD),
        StoredFile { name: Some("looper-temp-3".to_string()), size: 5, idle_nanos: old },
        upload("notes.txt", 70),
        upload("looper-temp-2", 30),
        upload("looper-temp-5", 40),
        StoredFile { name: None, size: 6, idle_nanos: old },
    ]
}

#[test]
fn a_tour_removes_what_has_expired_and_then_what_is_too_much() {
    assert_eq!(
        tour_through(crowded_directory(), &[true]),
        vec![
            TourAction::NextFile,
            TourAction::NextFile,
            TourAction::RemoveFile,
            TourAction::NextFile,
            TourAction::NextFile,
            TourAction::NextFile,
            TourAction::NextFile,
            TourAction::RemoveFile,
            TourAction::NextFile,
            TourAction::RemoveUpload { id: 2, size: 30 },
            TourAction::RemoveUpload { id: 5, size: 40 },
            TourAction::Finish,
        ]
    );
    assert_eq!(tour_through(vec![], &[true]), vec![TourAction::NextFile, TourAction::Finish]);
}

#[test]
fn removals_that_fail_change_nothing_of_a_tour() {
    let expected = tour_through(crowded_directory(), &[true]);
    for outcomes in [&[false][..], &[false, true][..], &[true, false, false][..]] {
        assert_eq!(tour_through(crowded_directory(), outcomes), expected);
    }
}

#[test]
fn a_tour_counts_the_uploads_that_may_stay_for_their_age() {
    let mut tour = Tour::new();
    for file in crowded_directory() {
        if tour.filelimit_cleanup(TourEvent::File(file)) == TourAction::RemoveFile {
            assert_eq!(tour.filelimit_cleanup(TourEvent::Removed(false)), TourAction::NextFile);
        }
    }
    assert_eq!(tour.total_size(), Some(MAX_TOTAL_UPLOAD + 70));
}
